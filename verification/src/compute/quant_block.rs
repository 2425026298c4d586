//! ZCBLK01 blocks: a header, a table of tensor records, a blob of names, and
//! the tensors' data and shapes.

use crate::bytes::{bytes_range, load_u16, load_u32, load_u64};
use crate::compute::error::ComputeError;
use crate::model_format::{
    QUANT_BLOCK_HEADER_SIZE, QUANT_BLOCK_MAGIC, QUANT_BLOCK_VERSION, QUANT_TENSOR_RECORD_SIZE,
};
use vstd::prelude::*;

verus! {

use crate::bytes::{u16_at, u32_at, u64_at};
use crate::compute::error::{agrees, found_agrees};

/// Is there a field of `width` bytes at `offset` of `len` bytes, and if not,
/// which error says so?
pub open spec fn field_error(len: nat, offset: int, width: int, field: &'static str) -> Option<
    ComputeError,
> {
    if offset + width > usize::MAX {
        Some(ComputeError::InvalidQuantBlock("read range overflow"))
    } else if offset + width > len {
        Some(ComputeError::TruncatedQuantBlock(field))
    } else {
        None
    }
}

/// The little-endian `u16` field at `offset`.
pub open spec fn u16_field(s: Seq<u8>, offset: int, field: &'static str) -> Result<
    u16,
    ComputeError,
> {
    match field_error(s.len(), offset, 2, field) {
        Some(error) => Err(error),
        None => Ok(u16_at(s, offset)),
    }
}

/// The little-endian `u32` field at `offset`.
pub open spec fn u32_field(s: Seq<u8>, offset: int, field: &'static str) -> Result<
    u32,
    ComputeError,
> {
    match field_error(s.len(), offset, 4, field) {
        Some(error) => Err(error),
        None => Ok(u32_at(s, offset)),
    }
}

/// The little-endian `u64` field at `offset`.
pub open spec fn u64_field(s: Seq<u8>, offset: int, field: &'static str) -> Result<
    u64,
    ComputeError,
> {
    match field_error(s.len(), offset, 8, field) {
        Some(error) => Err(error),
        None => Ok(u64_at(s, offset)),
    }
}

/// Reads `N` bytes at `offset`.
pub fn read_le_bytes<const N: usize>(
    buffer: &[u8],
    offset: usize,
    field: &'static str,
) -> (result: Result<[u8; N], ComputeError>)
    ensures
        match result {
            Ok(bytes) => field_error(buffer@.len(), offset as int, N as int, field) is None
                && bytes@ == buffer@.subrange(offset as int, offset + N),
            Err(error) => field_error(buffer@.len(), offset as int, N as int, field) == Some(error),
        },
{
    if offset > usize::MAX - N {
        return Err(ComputeError::InvalidQuantBlock("read range overflow"));
    }
    if offset + N > buffer.len() {
        return Err(ComputeError::TruncatedQuantBlock(field));
    }
    let mut bytes: [u8; N] = [0u8; N];
    let mut i: usize = 0;
    while i < N
        invariant
            i <= N,
            offset + N <= buffer.len(),
            forall|j: int| 0 <= j < i ==> bytes@[j] == buffer@[offset + j],
        decreases N - i,
    {
        bytes[i] = buffer[offset + i];
        i += 1;
    }
    proof {
        assert(bytes@ =~= buffer@.subrange(offset as int, offset + N));
    }
    Ok(bytes)
}

/// Reads the little-endian `u16` at `offset`.
pub fn read_u16_le(buffer: &[u8], offset: usize, field: &'static str) -> (result: Result<
    u16,
    ComputeError,
>)
    ensures
        result == u16_field(buffer@, offset as int, field),
{
    let bytes = match read_le_bytes::<2>(buffer, offset, field) {
        Ok(bytes) => bytes,
        Err(error) => return Err(error),
    };
    Ok(load_u16(&bytes, 0))
}

/// Reads the little-endian `u32` at `offset`.
pub fn read_u32_le(buffer: &[u8], offset: usize, field: &'static str) -> (result: Result<
    u32,
    ComputeError,
>)
    ensures
        result == u32_field(buffer@, offset as int, field),
{
    let bytes = match read_le_bytes::<4>(buffer, offset, field) {
        Ok(bytes) => bytes,
        Err(error) => return Err(error),
    };
    Ok(load_u32(&bytes, 0))
}

/// Reads the little-endian `u64` at `offset`.
pub fn read_u64_le(buffer: &[u8], offset: usize, field: &'static str) -> (result: Result<
    u64,
    ComputeError,
>)
    ensures
        result == u64_field(buffer@, offset as int, field),
{
    let bytes = match read_le_bytes::<8>(buffer, offset, field) {
        Ok(bytes) => bytes,
        Err(error) => return Err(error),
    };
    Ok(load_u64(&bytes, 0))
}

/// What a tensor is for.
#[derive(Clone, Copy, Debug, PartialEq, Eq, Structural)]
pub enum TensorRole {
    Unknown,
    QkvProj,
    QProj,
    KProj,
    VProj,
    OProj,
    GateProj,
    UpProj,
    DownProj,
    Router,
    Norm,
    Embed,
    LmHead,
    SharedExpert,
    KvProj,
}

/// The role that a code on disk stands for.
pub open spec fn role_of_code(code: u16) -> TensorRole {
    match code {
        1 => TensorRole::QkvProj,
        2 => TensorRole::QProj,
        3 => TensorRole::KProj,
        4 => TensorRole::VProj,
        5 => TensorRole::OProj,
        6 => TensorRole::GateProj,
        7 => TensorRole::UpProj,
        8 => TensorRole::DownProj,
        9 => TensorRole::Router,
        10 => TensorRole::Norm,
        11 => TensorRole::Embed,
        12 => TensorRole::LmHead,
        13 => TensorRole::SharedExpert,
        14 => TensorRole::KvProj,
        _ => TensorRole::Unknown,
    }
}

/// The code on disk of a role.
pub open spec fn code_of_role(role: TensorRole) -> u16 {
    match role {
        TensorRole::Unknown => 0,
        TensorRole::QkvProj => 1,
        TensorRole::QProj => 2,
        TensorRole::KProj => 3,
        TensorRole::VProj => 4,
        TensorRole::OProj => 5,
        TensorRole::GateProj => 6,
        TensorRole::UpProj => 7,
        TensorRole::DownProj => 8,
        TensorRole::Router => 9,
        TensorRole::Norm => 10,
        TensorRole::Embed => 11,
        TensorRole::LmHead => 12,
        TensorRole::SharedExpert => 13,
        TensorRole::KvProj => 14,
    }
}

/// The role kept in the low half of a tensor's flags.
pub open spec fn role_of_flags(flags: u32) -> TensorRole {
    role_of_code((flags % 65536) as u16)
}

impl TensorRole {
    /// The role that `code` stands for; unassigned codes are `Unknown`.
    pub fn from_code(code: u16) -> (role: Self)
        ensures
            role == role_of_code(code),
    {
        match code {
            1 => Self::QkvProj,
            2 => Self::QProj,
            3 => Self::KProj,
            4 => Self::VProj,
            5 => Self::OProj,
            6 => Self::GateProj,
            7 => Self::UpProj,
            8 => Self::DownProj,
            9 => Self::Router,
            10 => Self::Norm,
            11 => Self::Embed,
            12 => Self::LmHead,
            13 => Self::SharedExpert,
            14 => Self::KvProj,
            _ => Self::Unknown,
        }
    }

    /// The code of this role.
    pub fn code(self) -> (code: u16)
        ensures
            code == code_of_role(self),
    {
        match self {
            Self::Unknown => 0,
            Self::QkvProj => 1,
            Self::QProj => 2,
            Self::KProj => 3,
            Self::VProj => 4,
            Self::OProj => 5,
            Self::GateProj => 6,
            Self::UpProj => 7,
            Self::DownProj => 8,
            Self::Router => 9,
            Self::Norm => 10,
            Self::Embed => 11,
            Self::LmHead => 12,
            Self::SharedExpert => 13,
            Self::KvProj => 14,
        }
    }
}

/// The code of a role leads back to the role, and every assigned code is the
/// code of the role it stands for.
pub proof fn law_role_codes(role: TensorRole, code: u16)
    ensures
        role_of_code(code_of_role(role)) == role,
        code <= 14 ==> code_of_role(role_of_code(code)) == code,
        code > 14 ==> role_of_code(code) == TensorRole::Unknown,
{
}

/// Header of a block.
#[derive(Clone, Copy, Debug)]
pub struct QuantBlockHeader {
    pub tensor_count: u32,
    pub quant_format: u32,
    pub flags: u32,
    pub record_table_offset: usize,
    pub names_offset: usize,
}

/// The shape of a tensor, read in place from a block.
#[derive(Clone, Copy, Debug)]
pub struct ShapeLayout<'a> {
    data: &'a [u8],
    rank: usize,
}

impl<'a> View for ShapeLayout<'a> {
    type V = Seq<usize>;

    closed spec fn view(&self) -> Seq<usize> {
        Seq::new(self.rank as nat, |i: int| u64_at(self.data@, 4 + 8 * i) as usize)
    }
}

/// The product of `dims`, unless the product of a prefix passes `usize::MAX`.
pub open spec fn checked_product(dims: Seq<usize>) -> Option<usize>
    decreases dims.len(),
{
    if dims.len() == 0 {
        Some(1)
    } else {
        match checked_product(dims.drop_last()) {
            Some(count) => if count * dims.last() <= usize::MAX {
                Some((count * dims.last()) as usize)
            } else {
                None
            },
            None => None,
        }
    }
}

impl<'a> ShapeLayout<'a> {
    #[verifier::type_invariant]
    spec fn holds_its_dims(self) -> bool {
        self.data.len() == 4 + 8 * self.rank
    }

    /// Number of dimensions.
    pub fn rank(&self) -> (rank: usize)
        ensures
            rank == self@.len(),
    {
        self.rank
    }

    /// Dimension `index`.
    pub fn dim(&self, index: usize) -> (result: Result<usize, ComputeError>)
        ensures
            index < self@.len() ==> result == Ok::<usize, ComputeError>(self@[index as int]),
            index >= self@.len() ==> result == Err::<usize, ComputeError>(
                ComputeError::InvalidQuantBlock("shape dim index out of range"),
            ),
    {
        proof {
            use_type_invariant(self);
        }
        if index >= self.rank {
            return Err(ComputeError::InvalidQuantBlock("shape dim index out of range"));
        }
        match read_u64_le(self.data, 4 + index * 8, "shape.dim") {
            Ok(value) => Ok(value as usize),
            Err(error) => Err(error),
        }
    }

    /// Number of elements.
    pub fn element_count(&self) -> (result: Result<usize, ComputeError>)
        ensures
            match checked_product(self@) {
                Some(count) => result == Ok::<usize, ComputeError>(count),
                None => result == Err::<usize, ComputeError>(
                    ComputeError::InvalidQuantBlock("shape element count overflow"),
                ),
            },
    {
        let rank: usize = self.rank();
        let mut count: usize = 1;
        let mut index: usize = 0;
        while index < rank
            invariant
                index <= rank,
                rank == self@.len(),
                checked_product(self@.take(index as int)) == Some(count),
            decreases rank - index,
        {
            let dim: usize = match self.dim(index) {
                Ok(dim) => dim,
                Err(error) => return Err(error),
            };
            proof {
                let next = self@.take(index + 1);
                assert(next.drop_last() =~= self@.take(index as int));
                assert(next.last() == dim);
            }
            count = match count.checked_mul(dim) {
                Some(product) => product,
                None => {
                    proof {
                        lemma_overflow_stays(self@, index + 1);
                    }
                    return Err(ComputeError::InvalidQuantBlock("shape element count overflow"));
                },
            };
            index += 1;
        }
        proof {
            assert(self@.take(rank as int) =~= self@);
        }
        Ok(count)
    }
}

proof fn lemma_overflow_stays(dims: Seq<usize>, n: int)
    requires
        0 <= n <= dims.len(),
        checked_product(dims.take(n)) is None,
    ensures
        checked_product(dims) is None,
    decreases dims.len(),
{
    if n < dims.len() {
        assert(dims.drop_last().take(n) =~= dims.take(n));
        lemma_overflow_stays(dims.drop_last(), n);
    } else {
        assert(dims.take(n) =~= dims);
    }
}

/// One tensor of a block, read in place. `scale_bits` and `zero_point_bits`
/// are the IEEE 754 bit patterns of its tensor-wise scale and zero point.
#[derive(Clone, Copy, Debug)]
pub struct QuantTensorLayout<'a> {
    pub dtype_original: u16,
    pub quant_format: u16,
    pub rank: u32,
    pub flags: u32,
    pub name: &'a [u8],
    pub shape: ShapeLayout<'a>,
    pub data: &'a [u8],
    pub scale_bits: u32,
    pub zero_point_bits: u32,
}

/// What a tensor holds.
#[verifier::ext_equal]
pub struct TensorView {
    pub dtype_original: u16,
    pub quant_format: u16,
    pub rank: u32,
    pub flags: u32,
    pub name: Seq<u8>,
    pub dims: Seq<usize>,
    pub data: Seq<u8>,
    pub scale_bits: u32,
    pub zero_point_bits: u32,
}

impl TensorView {
    /// What the tensor is for.
    pub open spec fn role(self) -> TensorRole {
        role_of_flags(self.flags)
    }
}

impl<'a> View for QuantTensorLayout<'a> {
    type V = TensorView;

    open spec fn view(&self) -> TensorView {
        TensorView {
            dtype_original: self.dtype_original,
            quant_format: self.quant_format,
            rank: self.rank,
            flags: self.flags,
            name: self.name@,
            dims: self.shape@,
            data: self.data@,
            scale_bits: self.scale_bits,
            zero_point_bits: self.zero_point_bits,
        }
    }
}

impl<'a> QuantTensorLayout<'a> {
    /// What the tensor is for.
    pub fn role(&self) -> (role: TensorRole)
        ensures
            role == self@.role(),
    {
        TensorRole::from_code((self.flags % 65536) as u16)
    }
}

/// The name of `names_offset + name_offset`: a `u16` length, then its bytes.
pub open spec fn name_blob(s: Seq<u8>, names_offset: int, name_offset: int) -> Result<
    Seq<u8>,
    ComputeError,
> {
    let absolute = names_offset + name_offset;
    if absolute > usize::MAX {
        Err(ComputeError::InvalidQuantBlock("name offset overflow"))
    } else {
        match u16_field(s, absolute, "name.len") {
            Err(error) => Err(error),
            Ok(len) => if absolute + 2 + len > usize::MAX {
                Err(ComputeError::InvalidQuantBlock("name end overflow"))
            } else if absolute + 2 + len > s.len() {
                Err(ComputeError::TruncatedQuantBlock("name blob"))
            } else {
                Ok(s.subrange(absolute + 2, absolute + 2 + len))
            },
        }
    }
}

/// The shape at `shape_offset`: a `u32` rank, then a `u64` per dimension.
pub open spec fn shape_blob(s: Seq<u8>, shape_offset: int, expected_rank: int) -> Result<
    Seq<usize>,
    ComputeError,
> {
    match u32_field(s, shape_offset, "shape.rank") {
        Err(error) => Err(error),
        Ok(rank) => if rank as usize != expected_rank {
            Err(ComputeError::InvalidQuantBlock("shape rank mismatch"))
        } else if 8 * expected_rank > usize::MAX {
            Err(ComputeError::InvalidQuantBlock("shape size overflow"))
        } else if 4 + 8 * expected_rank > usize::MAX {
            Err(ComputeError::InvalidQuantBlock("shape range overflow"))
        } else if shape_offset + 4 + 8 * expected_rank > usize::MAX {
            Err(ComputeError::InvalidQuantBlock("shape end overflow"))
        } else if shape_offset + 4 + 8 * expected_rank > s.len() {
            Err(ComputeError::TruncatedQuantBlock("shape blob"))
        } else {
            Ok(
                Seq::new(
                    expected_rank as nat,
                    |i: int| u64_at(s, shape_offset + 4 + 8 * i) as usize,
                ),
            )
        },
    }
}

/// Reads the name at `names_offset + name_offset`.
pub fn read_name_blob<'a>(
    buffer: &'a [u8],
    names_offset: usize,
    name_offset: usize,
) -> (result: Result<&'a [u8], ComputeError>)
    ensures
        agrees(result, name_blob(buffer@, names_offset as int, name_offset as int)),
{
    let absolute: usize = match names_offset.checked_add(name_offset) {
        Some(absolute) => absolute,
        None => return Err(ComputeError::InvalidQuantBlock("name offset overflow")),
    };
    let len: usize = match read_u16_le(buffer, absolute, "name.len") {
        Ok(len) => len as usize,
        Err(error) => return Err(error),
    };
    let start: usize = absolute + 2;
    let end: usize = match start.checked_add(len) {
        Some(end) => end,
        None => return Err(ComputeError::InvalidQuantBlock("name end overflow")),
    };
    match bytes_range(buffer, start, end) {
        Some(name) => Ok(name),
        None => Err(ComputeError::TruncatedQuantBlock("name blob")),
    }
}

/// Reads the shape at `shape_offset`, which must have `expected_rank`
/// dimensions.
pub fn read_shape_layout<'a>(
    buffer: &'a [u8],
    shape_offset: usize,
    expected_rank: usize,
) -> (result: Result<ShapeLayout<'a>, ComputeError>)
    ensures
        agrees(result, shape_blob(buffer@, shape_offset as int, expected_rank as int)),
{
    let rank: usize = match read_u32_le(buffer, shape_offset, "shape.rank") {
        Ok(rank) => rank as usize,
        Err(error) => return Err(error),
    };
    if rank != expected_rank {
        return Err(ComputeError::InvalidQuantBlock("shape rank mismatch"));
    }
    let dims_len: usize = match rank.checked_mul(8) {
        Some(len) => len,
        None => return Err(ComputeError::InvalidQuantBlock("shape size overflow")),
    };
    let byte_len: usize = match dims_len.checked_add(4) {
        Some(len) => len,
        None => return Err(ComputeError::InvalidQuantBlock("shape range overflow")),
    };
    let end: usize = match shape_offset.checked_add(byte_len) {
        Some(end) => end,
        None => return Err(ComputeError::InvalidQuantBlock("shape end overflow")),
    };
    let data: &'a [u8] = match bytes_range(buffer, shape_offset, end) {
        Some(data) => data,
        None => return Err(ComputeError::TruncatedQuantBlock("shape blob")),
    };
    let shape = ShapeLayout { data, rank };
    proof {
        assert(shape@ =~= Seq::new(
            expected_rank as nat,
            |i: int| u64_at(buffer@, shape_offset + 4 + 8 * i) as usize,
        ));
    }
    Ok(shape)
}

/// A block, read in place.
#[derive(Clone, Copy, Debug)]
pub struct QuantBlockLayout<'a> {
    buffer: &'a [u8],
    pub header: QuantBlockHeader,
}

/// What a block holds: its bytes, and the header that says how to read them.
#[verifier::ext_equal]
pub struct BlockView {
    pub bytes: Seq<u8>,
    pub header: QuantBlockHeader,
}

impl<'a> View for QuantBlockLayout<'a> {
    type V = BlockView;

    closed spec fn view(&self) -> BlockView {
        BlockView { bytes: self.buffer@, header: self.header }
    }
}

impl BlockView {
    /// The tensor that the record at `at` describes.
    pub open spec fn tensor_at(self, at: int) -> Result<TensorView, ComputeError> {
        let record = self.bytes.subrange(at, at + QUANT_TENSOR_RECORD_SIZE);
        let rank = u32_at(record, 4);
        let data_offset = u64_at(record, 28) as usize;
        let data_end = data_offset + u64_at(record, 36) as usize;
        match name_blob(
            self.bytes,
            self.header.names_offset as int,
            u64_at(record, 12) as usize as int,
        ) {
            Err(error) => Err(error),
            Ok(name) => match shape_blob(
                self.bytes,
                u64_at(record, 20) as usize as int,
                rank as usize as int,
            ) {
                Err(error) => Err(error),
                Ok(dims) => if data_end > usize::MAX {
                    Err(ComputeError::InvalidQuantBlock("tensor data range overflow"))
                } else if data_end > self.bytes.len() {
                    Err(ComputeError::TruncatedQuantBlock("tensor data"))
                } else {
                    Ok(
                        TensorView {
                            dtype_original: u16_at(record, 0),
                            quant_format: u16_at(record, 2),
                            rank,
                            flags: u32_at(record, 8),
                            name,
                            dims,
                            data: self.bytes.subrange(data_offset as int, data_end),
                            scale_bits: u32_at(record, 44),
                            zero_point_bits: u32_at(record, 48),
                        },
                    )
                },
            },
        }
    }

    /// Number of tensor records.
    pub open spec fn count(self) -> usize {
        self.header.tensor_count as usize
    }

    /// Tensor `index` of the block.
    #[verifier::opaque]
    pub open spec fn tensor(self, index: int) -> Result<TensorView, ComputeError> {
        let at = self.header.record_table_offset + index * QUANT_TENSOR_RECORD_SIZE;
        if index >= self.count() {
            Err(ComputeError::TensorIndexOutOfRange { index: index as usize, count: self.count() })
        } else if at > usize::MAX {
            Err(ComputeError::InvalidQuantBlock("record offset overflow"))
        } else if at + QUANT_TENSOR_RECORD_SIZE > self.bytes.len() {
            Err(ComputeError::TruncatedQuantBlock("tensor record"))
        } else {
            self.tensor_at(at)
        }
    }

    /// The first tensor from `from` on that `wanted` accepts. A tensor that
    /// cannot be read ends the search.
    pub open spec fn first_from(self, from: int, wanted: spec_fn(TensorView) -> bool) -> Result<
        Option<TensorView>,
        ComputeError,
    >
        decreases self.count() - from,
    {
        if from >= self.count() {
            Ok(None)
        } else {
            match self.tensor(from) {
                Err(error) => Err(error),
                Ok(tensor) => if wanted(tensor) {
                    Ok(Some(tensor))
                } else {
                    self.first_from(from + 1, wanted)
                },
            }
        }
    }

    /// The first tensor that `wanted` accepts.
    pub open spec fn first(self, wanted: spec_fn(TensorView) -> bool) -> Result<
        Option<TensorView>,
        ComputeError,
    > {
        self.first_from(0, wanted)
    }

    /// The first tensor with `role`.
    pub open spec fn by_role(self, role: TensorRole) -> Result<Option<TensorView>, ComputeError> {
        self.first(|t: TensorView| t.role() == role)
    }

    /// The first tensor with the earliest of `roles` that the block has, and
    /// the block's first tensor where it has none of them.
    pub open spec fn by_roles(self, roles: Seq<TensorRole>) -> Result<TensorView, ComputeError>
        decreases roles.len(),
    {
        if roles.len() == 0 {
            self.tensor(0)
        } else {
            match self.by_role(roles[0]) {
                Err(error) => Err(error),
                Ok(Some(tensor)) => Ok(tensor),
                Ok(None) => self.by_roles(roles.skip(1)),
            }
        }
    }
}

impl<'a> QuantBlockLayout<'a> {
    /// What the block says of itself.
    pub fn header(&self) -> (header: QuantBlockHeader)
        ensures
            header == self@.header,
    {
        self.header
    }

    /// Number of tensors.
    pub fn tensor_count(&self) -> (count: usize)
        ensures
            count == self@.count(),
    {
        self.header.tensor_count as usize
    }

    /// Tensor `index`.
    pub fn tensor(&self, index: usize) -> (result: Result<QuantTensorLayout<'a>, ComputeError>)
        ensures
            agrees(result, self@.tensor(index as int)),
    {
        reveal(BlockView::tensor);
        let count: usize = self.tensor_count();
        if index >= count {
            return Err(ComputeError::TensorIndexOutOfRange { index, count });
        }
        let table_offset: usize = match index.checked_mul(QUANT_TENSOR_RECORD_SIZE) {
            Some(offset) => offset,
            None => return Err(ComputeError::InvalidQuantBlock("record offset overflow")),
        };
        let record_offset: usize = match self.header.record_table_offset.checked_add(table_offset) {
            Some(offset) => offset,
            None => return Err(ComputeError::InvalidQuantBlock("record offset overflow")),
        };
        assert(self@.bytes.len() == self.buffer.len());
        let record_end: usize = match record_offset.checked_add(QUANT_TENSOR_RECORD_SIZE) {
            Some(end) => end,
            None => return Err(ComputeError::TruncatedQuantBlock("tensor record")),
        };
        let record: &'a [u8] = match bytes_range(self.buffer, record_offset, record_end) {
            Some(record) => record,
            None => return Err(ComputeError::TruncatedQuantBlock("tensor record")),
        };

        let dtype_original: u16 = load_u16(record, 0);
        let quant_format: u16 = load_u16(record, 2);
        let rank: u32 = load_u32(record, 4);
        let flags: u32 = load_u32(record, 8);
        let name_offset: usize = load_u64(record, 12) as usize;
        let shape_offset: usize = load_u64(record, 20) as usize;
        let data_offset: usize = load_u64(record, 28) as usize;
        let data_bytes: usize = load_u64(record, 36) as usize;
        let scale_bits: u32 = load_u32(record, 44);
        let zero_point_bits: u32 = load_u32(record, 48);

        let name: &'a [u8] = match read_name_blob(
            self.buffer,
            self.header.names_offset,
            name_offset,
        ) {
            Ok(name) => name,
            Err(error) => return Err(error),
        };
        let shape = match read_shape_layout(self.buffer, shape_offset, rank as usize) {
            Ok(shape) => shape,
            Err(error) => return Err(error),
        };
        let data_end: usize = match data_offset.checked_add(data_bytes) {
            Some(end) => end,
            None => return Err(ComputeError::InvalidQuantBlock("tensor data range overflow")),
        };
        let data: &'a [u8] = match bytes_range(self.buffer, data_offset, data_end) {
            Some(data) => data,
            None => return Err(ComputeError::TruncatedQuantBlock("tensor data")),
        };
        Ok(
            QuantTensorLayout {
                dtype_original,
                quant_format,
                rank,
                flags,
                name,
                shape,
                data,
                scale_bits,
                zero_point_bits,
            },
        )
    }

    /// Tensor 0.
    pub fn first_tensor(&self) -> (result: Result<QuantTensorLayout<'a>, ComputeError>)
        ensures
            agrees(result, self@.tensor(0)),
    {
        self.tensor(0)
    }

    /// The first tensor with `role`, if there is one.
    pub fn tensor_by_role(&self, role: TensorRole) -> (result: Result<
        Option<QuantTensorLayout<'a>>,
        ComputeError,
    >)
        ensures
            found_agrees(result, self@.by_role(role)),
    {
        let ghost wanted = |t: TensorView| t.role() == role;
        let count: usize = self.tensor_count();
        let mut index: usize = 0;
        while index < count
            invariant
                count == self@.count(),
                index <= count,
                wanted == (|t: TensorView| t.role() == role),
                self@.first(wanted) == self@.first_from(index as int, wanted),
            decreases count - index,
        {
            let tensor = match self.tensor(index) {
                Ok(tensor) => tensor,
                Err(error) => return Err(error),
            };
            if tensor.role() == role {
                return Ok(Some(tensor));
            }
            index += 1;
        }
        Ok(None)
    }

    /// The first tensor with the earliest of `roles` that the block has, and
    /// tensor 0 where it has none of them.
    pub fn first_tensor_by_roles(&self, roles: &[TensorRole]) -> (result: Result<
        QuantTensorLayout<'a>,
        ComputeError,
    >)
        ensures
            agrees(result, self@.by_roles(roles@)),
    {
        let mut i: usize = 0;
        proof {
            assert(roles@.skip(0) =~= roles@);
        }
        while i < roles.len()
            invariant
                i <= roles@.len(),
                self@.by_roles(roles@) == self@.by_roles(roles@.skip(i as int)),
            decreases roles@.len() - i,
        {
            match self.tensor_by_role(roles[i]) {
                Ok(Some(tensor)) => return Ok(tensor),
                Ok(None) => {},
                Err(error) => return Err(error),
            }
            proof {
                assert(roles@.skip(i as int).skip(1) =~= roles@.skip(i + 1));
            }
            i += 1;
        }
        self.first_tensor()
    }
}

/// The first eight bytes of `s`.
pub open spec fn magic_of(s: Seq<u8>) -> [u8; 8] {
    choose|magic: [u8; 8]| #[trigger] magic@ == s.subrange(0, 8)
}

/// What a buffer holds as a block.
pub open spec fn parsed_block(s: Seq<u8>) -> Result<BlockView, ComputeError> {
    let version = u32_at(s, 8);
    let tensor_count = u32_at(s, 12);
    let record_table_offset = u64_at(s, 24) as usize;
    let names_offset = u64_at(s, 32) as usize;
    let record_bytes = (tensor_count as usize) * QUANT_TENSOR_RECORD_SIZE;
    if s.len() < QUANT_BLOCK_HEADER_SIZE {
        Err(ComputeError::TruncatedQuantBlock("block header"))
    } else if s.subrange(0, 8) != QUANT_BLOCK_MAGIC@ {
        Err(ComputeError::InvalidQuantBlockMagic(magic_of(s)))
    } else if version != QUANT_BLOCK_VERSION {
        Err(ComputeError::UnsupportedQuantBlockVersion(version))
    } else if record_bytes > usize::MAX {
        Err(ComputeError::InvalidQuantBlock("record table size overflow"))
    } else if record_table_offset + record_bytes > usize::MAX {
        Err(ComputeError::InvalidQuantBlock("record table range overflow"))
    } else if record_table_offset < QUANT_BLOCK_HEADER_SIZE || record_table_offset + record_bytes
        > s.len() {
        Err(ComputeError::TruncatedQuantBlock("record table"))
    } else if names_offset > s.len() {
        Err(ComputeError::TruncatedQuantBlock("names blob"))
    } else {
        Ok(
            BlockView {
                bytes: s,
                header: QuantBlockHeader {
                    tensor_count,
                    quant_format: u32_at(s, 16),
                    flags: u32_at(s, 20),
                    record_table_offset,
                    names_offset,
                },
            },
        )
    }
}

/// Reads a block's header and checks that its tables lie in `buffer`.
pub fn parse_quant_block<'a>(buffer: &'a [u8]) -> (result: Result<QuantBlockLayout<'a>, ComputeError>)
    ensures
        agrees(result, parsed_block(buffer@)),
{
    if buffer.len() < QUANT_BLOCK_HEADER_SIZE {
        return Err(ComputeError::TruncatedQuantBlock("block header"));
    }
    let magic: [u8; 8] = match read_le_bytes::<8>(buffer, 0, "block magic") {
        Ok(magic) => magic,
        Err(error) => return Err(error),
    };
    proof {
        assert(magic_of(buffer@)@ == magic@);
        assert(magic_of(buffer@) =~= magic);
    }
    if !crate::bytes::bytes_equal(&magic, &QUANT_BLOCK_MAGIC) {
        return Err(ComputeError::InvalidQuantBlockMagic(magic));
    }
    let version: u32 = load_u32(buffer, 8);
    if version != QUANT_BLOCK_VERSION {
        return Err(ComputeError::UnsupportedQuantBlockVersion(version));
    }
    let tensor_count: u32 = load_u32(buffer, 12);
    let quant_format: u32 = load_u32(buffer, 16);
    let flags: u32 = load_u32(buffer, 20);
    let record_table_offset: usize = load_u64(buffer, 24) as usize;
    let names_offset: usize = load_u64(buffer, 32) as usize;

    let record_bytes: usize = match (tensor_count as usize).checked_mul(QUANT_TENSOR_RECORD_SIZE) {
        Some(bytes) => bytes,
        None => return Err(ComputeError::InvalidQuantBlock("record table size overflow")),
    };
    let record_end: usize = match record_table_offset.checked_add(record_bytes) {
        Some(end) => end,
        None => return Err(ComputeError::InvalidQuantBlock("record table range overflow")),
    };
    if record_table_offset < QUANT_BLOCK_HEADER_SIZE || record_end > buffer.len() {
        return Err(ComputeError::TruncatedQuantBlock("record table"));
    }
    if names_offset > buffer.len() {
        return Err(ComputeError::TruncatedQuantBlock("names blob"));
    }
    Ok(
        QuantBlockLayout {
            buffer,
            header: QuantBlockHeader {
                tensor_count,
                quant_format,
                flags,
                record_table_offset,
                names_offset,
            },
        },
    )
}

/// A search hands back the first tensor that is wanted: those before it can be read
/// and are not wanted. Where it finds none, every tensor can be read and none is
/// wanted; where it fails, it does on the first tensor that cannot be read, and none
/// before that is wanted.
pub proof fn law_search_finds_the_first(b: BlockView, wanted: spec_fn(TensorView) -> bool)
    ensures
        match b.first(wanted) {
            Ok(Some(t)) => exists|i: int|
                0 <= i < b.count() && #[trigger] b.tensor(i) == Ok::<TensorView, ComputeError>(t)
                    && wanted(t) && b.passes_over(i, wanted),
            Ok(None) => b.passes_over(b.count() as int, wanted),
            Err(error) => exists|i: int|
                0 <= i < b.count() && #[trigger] b.tensor(i) == Err::<TensorView, ComputeError>(
                    error,
                ) && b.passes_over(i, wanted),
        },
{
    lemma_search(b, 0, wanted);
}

impl BlockView {
    /// The first `n` tensors can be read, and none of them is wanted.
    pub open spec fn passes_over(self, n: int, wanted: spec_fn(TensorView) -> bool) -> bool {
        forall|j: int|
            0 <= j < n ==> (#[trigger] self.tensor(j)) is Ok && !wanted(self.tensor(j)->Ok_0)
    }
}

proof fn lemma_search(b: BlockView, from: int, wanted: spec_fn(TensorView) -> bool)
    requires
        0 <= from <= b.count(),
        b.passes_over(from, wanted),
    ensures
        match b.first_from(from, wanted) {
            Ok(Some(t)) => exists|i: int|
                0 <= i < b.count() && #[trigger] b.tensor(i) == Ok::<TensorView, ComputeError>(t)
                    && wanted(t) && b.passes_over(i, wanted),
            Ok(None) => b.passes_over(b.count() as int, wanted),
            Err(error) => exists|i: int|
                0 <= i < b.count() && #[trigger] b.tensor(i) == Err::<TensorView, ComputeError>(
                    error,
                ) && b.passes_over(i, wanted),
        },
    decreases b.count() - from,
{
    if from < b.count() {
        match b.tensor(from) {
            Err(_) => {},
            Ok(t) => if !wanted(t) {
                lemma_search(b, from + 1, wanted);
            },
        }
    }
}

/// The header of a block is read from its bytes: the magic first, the version
/// behind it, and then the number of tensors, the format, the flags, and where
/// the records and the names stand.
pub proof fn law_headers_are_read_in_place(s: Seq<u8>)
    ensures
        parsed_block(s) matches Ok(b) ==> {
            &&& b.bytes == s
            &&& s.len() >= 40
            &&& s.subrange(0, 8) == QUANT_BLOCK_MAGIC@
            &&& u32_at(s, 8) == 1
            &&& b.header.tensor_count == u32_at(s, 12)
            &&& b.header.quant_format == u32_at(s, 16)
            &&& b.header.flags == u32_at(s, 20)
            &&& u64_at(s, 24) <= usize::MAX ==> b.header.record_table_offset == u64_at(s, 24)
            &&& u64_at(s, 32) <= usize::MAX ==> b.header.names_offset == u64_at(s, 32)
            &&& b.header.record_table_offset >= 40
            &&& b.header.record_table_offset + 52 * b.count() <= s.len()
            &&& b.count() == b.header.tensor_count
        },
{
}

/// The record of a tensor is 52 bytes, in the order of the tensors. Its fields
/// stand at fixed places, and its name, dimensions and data are the bytes that
/// they point to.
pub proof fn law_tensors_are_read_in_place(b: BlockView, index: int)
    requires
        0 <= index,
    ensures
        b.tensor(index) matches Ok(t) ==> {
            let at = b.header.record_table_offset + 52 * index;
            let name_at = b.header.names_offset + u64_at(b.bytes, at + 12) as usize;
            let shape_at = u64_at(b.bytes, at + 20) as usize as int;
            let data_at = u64_at(b.bytes, at + 28) as usize as int;
            &&& index < b.count()
            &&& at + 52 <= b.bytes.len()
            &&& t.dtype_original == u16_at(b.bytes, at)
            &&& t.quant_format == u16_at(b.bytes, at + 2)
            &&& t.rank == u32_at(b.bytes, at + 4)
            &&& t.flags == u32_at(b.bytes, at + 8)
            &&& t.name.len() == u16_at(b.bytes, name_at)
            &&& name_at + 2 + t.name.len() <= b.bytes.len()
            &&& forall|i: int|
                0 <= i < t.name.len() ==> #[trigger] t.name[i] == b.bytes[name_at + 2 + i]
            &&& t.dims.len() == t.rank
            &&& u32_at(b.bytes, shape_at) == t.rank
            &&& forall|i: int|
                0 <= i < t.dims.len() ==> #[trigger] t.dims[i] == u64_at(
                    b.bytes,
                    shape_at + 4 + 8 * i,
                ) as usize
            &&& t.data.len() == u64_at(b.bytes, at + 36) as usize
            &&& data_at + t.data.len() <= b.bytes.len()
            &&& forall|i: int|
                0 <= i < t.data.len() ==> #[trigger] t.data[i] == b.bytes[data_at + i]
            &&& t.scale_bits == u32_at(b.bytes, at + 44)
            &&& t.zero_point_bits == u32_at(b.bytes, at + 48)
        },
{
    reveal(BlockView::tensor);
    let at = b.header.record_table_offset + index * QUANT_TENSOR_RECORD_SIZE;
    if b.tensor(index) is Ok {
        let record = b.bytes.subrange(at, at + QUANT_TENSOR_RECORD_SIZE);
        assert forall|k: int| 0 <= k < 52 implies #[trigger] record[k] == b.bytes[at + k] by {}
    }
}

/// A tensor by role is the first that has it; a list of roles is gone through in
/// its order, and where none of them occurs the first tensor stands in.
pub proof fn law_roles_are_tried_in_order(b: BlockView, roles: Seq<TensorRole>)
    ensures
        roles.len() > 0 ==> (b.by_role(roles[0]) matches Ok(Some(t)) ==> t.role() == roles[0]
            && b.by_roles(roles) == Ok::<TensorView, ComputeError>(t)),
        roles.len() > 0 ==> (b.by_role(roles[0]) matches Ok(None) ==> b.by_roles(roles)
            == b.by_roles(roles.skip(1))),
        roles.len() == 0 ==> b.by_roles(roles) == b.tensor(0),
{
    if roles.len() > 0 {
        let wanted = |t: TensorView| t.role() == roles[0];
        law_search_finds_the_first(b, wanted);
        assert(b.by_role(roles[0]) == b.first(wanted));
    }
}

/// A role is found again from its code.
pub proof fn law_roles_come_back(role: TensorRole, code: u16, found: TensorRole)
    requires
        call_ensures(TensorRole::code, (role,), code),
        call_ensures(TensorRole::from_code, (code,), found),
    ensures
        found == role,
        code <= 14,
{
    law_role_codes(role, code);
}

} // verus!
