//! The index of tensors that are read row by row from the model's core file.

use crate::bytes::{bytes_equal, bytes_start_with, text_equal};
use crate::compute::values::load_bf16_values;
use crate::order::push_topk_candidate;
use vstd::prelude::*;
use vstd::string::StringExecFns;

verus! {

use crate::bytes::starts_with_bytes;
use crate::compute::values::bf16_values;
use crate::order::{best_of, offered};
use vstd::string::StringSliceAdditionalSpecFns;
use vstd::utf8::encode_utf8;

pub const DEEPSEEK_BF16_DTYPE: u16 = 11;
pub const DEEPSEEK_BF16_QUANT: u16 = 2404;
pub const DEFAULT_CHUNK_BYTES: usize = 16777216;

/// Why a row cannot be read.
#[derive(Clone, Debug)]
pub enum RowIndexError {
    NotReady(String),
    MissingTensor(String),
    NotRowBf16(String),
    RowOutOfRange { tensor: String, row: usize, rows: usize },
    OutputTooSmall { required: usize, actual: usize },
    InvalidIndex(&'static str),
}

/// Why a row cannot be read, with texts as characters.
#[verifier::ext_equal]
pub enum RowErrorView {
    NotReady(Seq<char>),
    MissingTensor(Seq<char>),
    NotRowBf16(Seq<char>),
    RowOutOfRange { tensor: Seq<char>, row: usize, rows: usize },
    OutputTooSmall { required: usize, actual: usize },
    InvalidIndex(&'static str),
}

impl View for RowIndexError {
    type V = RowErrorView;

    open spec fn view(&self) -> RowErrorView {
        match self {
            RowIndexError::NotReady(status) => RowErrorView::NotReady(status@),
            RowIndexError::MissingTensor(name) => RowErrorView::MissingTensor(name@),
            RowIndexError::NotRowBf16(name) => RowErrorView::NotRowBf16(name@),
            RowIndexError::RowOutOfRange { tensor, row, rows } => RowErrorView::RowOutOfRange {
                tensor: tensor@,
                row: *row,
                rows: *rows,
            },
            RowIndexError::OutputTooSmall { required, actual } => RowErrorView::OutputTooSmall {
                required: *required,
                actual: *actual,
            },
            RowIndexError::InvalidIndex(what) => RowErrorView::InvalidIndex(*what),
        }
    }
}

/// A result is the one that is due.
pub open spec fn is_due<T>(result: Result<T, RowIndexError>, due: Result<T, RowErrorView>) -> bool {
    match result {
        Ok(value) => due == Ok::<T, RowErrorView>(value),
        Err(error) => due == Err::<T, RowErrorView>(error@),
    }
}

/// A tensor of the index.
#[derive(Clone, Debug)]
pub struct RowTensorRecord {
    pub name: String,
    pub dtype_code: u16,
    pub quant_format: u16,
    pub role_code: u16,
    pub shape: Vec<usize>,
    pub absolute_data_offset: u64,
    pub data_bytes: u64,
    pub row_count: Option<usize>,
    pub row_width: Option<usize>,
    pub row_bytes: Option<usize>,
}

/// The file of an index.
#[derive(Debug)]
pub struct RowTensorIndexFile {
    pub format: String,
    pub version: u32,
    pub status: String,
    pub core_file: String,
    pub tensors: Vec<RowTensorRecord>,
}

/// Bytes of the core file.
#[derive(Clone, Copy, Debug, PartialEq, Eq, Structural)]
pub struct ReadSpan {
    pub offset: u64,
    pub bytes: usize,
}

/// An index: where the core file is, and its tensors, no two of one name.
pub struct RowTensorIndex {
    core_path: String,
    tensors: Vec<RowTensorRecord>,
}

/// An index, as contents.
#[verifier::ext_equal]
pub struct RowIndexView {
    pub core_path: Seq<char>,
    pub tensors: Map<Seq<char>, RowTensorRecord>,
}

/// The first `n` records by name: of those with one name, the last.
pub open spec fn by_name(records: Seq<RowTensorRecord>, n: int) -> Map<Seq<char>, RowTensorRecord>
    decreases n,
{
    if n <= 0 {
        Map::empty()
    } else {
        by_name(records, n - 1).insert(records[n - 1].name@, records[n - 1])
    }
}

/// No two records have one name.
pub open spec fn names_differ(records: Seq<RowTensorRecord>) -> bool {
    forall|i: int, j: int|
        0 <= i < j < records.len() ==> (#[trigger] records[i]).name@ != (
        #[trigger] records[j]).name@
}

impl View for RowTensorIndex {
    type V = RowIndexView;

    closed spec fn view(&self) -> RowIndexView {
        RowIndexView {
            core_path: self.core_path@,
            tensors: by_name(self.tensors@, self.tensors@.len() as int),
        }
    }
}

proof fn lemma_named(records: Seq<RowTensorRecord>, n: int, name: Seq<char>)
    requires
        0 <= n <= records.len(),
        names_differ(records),
    ensures
        by_name(records, n).contains_key(name) == exists|i: int|
            0 <= i < n && (#[trigger] records[i]).name@ == name,
        forall|i: int|
            0 <= i < n && (#[trigger] records[i]).name@ == name ==> by_name(records, n)[name]
                == records[i],
    decreases n,
{
    if n > 0 {
        lemma_named(records, n - 1, name);
        if records[n - 1].name@ != name && by_name(records, n - 1).contains_key(name) {
            let i = choose|i: int| 0 <= i < n - 1 && (#[trigger] records[i]).name@ == name;
            assert(records[i].name@ == name);
        }
    }
}

proof fn lemma_prefix_names(a: Seq<RowTensorRecord>, b: Seq<RowTensorRecord>, n: int)
    requires
        0 <= n <= a.len(),
        n <= b.len(),
        forall|i: int| 0 <= i < n ==> #[trigger] a[i] == b[i],
    ensures
        by_name(a, n) == by_name(b, n),
    decreases n,
{
    if n > 0 {
        lemma_prefix_names(a, b, n - 1);
    }
}

fn find_name(records: &[RowTensorRecord], name: &str) -> (found: Option<usize>)
    ensures
        match found {
            Some(index) => index < records.len() && records[index as int].name@ == name@,
            None => forall|i: int|
                0 <= i < records.len() ==> (#[trigger] records[i]).name@ != name@,
        },
{
    let mut i: usize = 0;
    while i < records.len()
        invariant
            i <= records.len(),
            forall|j: int| 0 <= j < i ==> (#[trigger] records[j]).name@ != name@,
        decreases records.len() - i,
    {
        if text_equal(records[i].name.as_str(), name) {
            return Some(i);
        }
        i += 1;
    }
    None
}

/// The file of an index is refused: its format or version is not known, or it
/// is not complete.
pub open spec fn file_error(file: RowTensorIndexFile) -> Option<RowErrorView> {
    let format = encode_utf8(file.format@);
    if (format != "wohper-row-tensor-index".spec_bytes() && format
        != "zeroclaw-row-tensor-index".spec_bytes()) || file.version != 1 {
        Some(RowErrorView::InvalidIndex("unsupported format or version"))
    } else if encode_utf8(file.status@) != "ready".spec_bytes() {
        Some(RowErrorView::NotReady(file.status@))
    } else {
        None
    }
}

/// The core file of an index: a path of its own, or one below the directory of
/// the index.
pub open spec fn core_path(directory: Option<Seq<char>>, core_file: Seq<char>) -> Seq<char> {
    let directory = match directory {
        Some(directory) => directory,
        None => seq!['.'],
    };
    if core_file.len() > 0 && core_file[0] == '/' {
        core_file
    } else if directory.len() == 0 || directory.last() == '/' {
        directory + core_file
    } else {
        directory + seq!['/'] + core_file
    }
}

fn starts_with_slash(text: &str) -> (found: bool)
    ensures
        found == (text@.len() > 0 && text@[0] == '/'),
{
    let len: usize = text.unicode_len();
    len > 0 && text.get_char(0) == '/'
}

/// Where the core file is. `directory` is that of the index, if it has one.
pub fn resolve_core_path(directory: Option<&str>, core_file: &str) -> (path: String)
    ensures
        path@ == core_path(
            match directory {
                Some(directory) => Some(directory@),
                None => None,
            },
            core_file@,
        ),
{
    if starts_with_slash(core_file) {
        return core_file.to_owned();
    }
    proof {
        reveal_strlit(".");
        reveal_strlit("/");
        assert("."@ =~= seq!['.']);
        assert("/"@ =~= seq!['/']);
    }
    let directory: &str = match directory {
        Some(directory) => directory,
        None => ".",
    };
    let mut path: String = directory.to_owned();
    let len: usize = directory.unicode_len();
    if len > 0 && directory.get_char(len - 1) != '/' {
        path.append("/");
    }
    path.append(core_file);
    path
}

/// A tensor has rows of BF16 numbers.
pub open spec fn bf16_rows_error(tensor: RowTensorRecord) -> Option<RowErrorView> {
    if tensor.dtype_code != DEEPSEEK_BF16_DTYPE || tensor.quant_format != DEEPSEEK_BF16_QUANT
        || tensor.row_count is None || tensor.row_width is None || tensor.row_bytes is None {
        Some(RowErrorView::NotRowBf16(tensor.name@))
    } else if tensor.row_count == Some(0usize) || tensor.row_bytes == Some(0usize)
        || tensor.data_bytes < tensor.row_bytes->0 {
        Some(RowErrorView::InvalidIndex("invalid row tensor dimensions"))
    } else {
        None
    }
}

/// Checks that a tensor has rows of BF16 numbers.
pub fn validate_bf16_row_tensor(tensor: &RowTensorRecord) -> (result: Result<(), RowIndexError>)
    ensures
        is_due(
            result,
            match bf16_rows_error(*tensor) {
                Some(error) => Err(error),
                None => Ok(()),
            },
        ),
{
    if tensor.dtype_code != DEEPSEEK_BF16_DTYPE || tensor.quant_format != DEEPSEEK_BF16_QUANT {
        return Err(RowIndexError::NotRowBf16(tensor.name.clone()));
    }
    match (tensor.row_count, tensor.row_width, tensor.row_bytes) {
        (Some(row_count), Some(_), Some(row_bytes)) => {
            if row_count == 0 || row_bytes == 0 || tensor.data_bytes < row_bytes as u64 {
                return Err(RowIndexError::InvalidIndex("invalid row tensor dimensions"));
            }
            Ok(())
        },
        _ => Err(RowIndexError::NotRowBf16(tensor.name.clone())),
    }
}

/// Number of rows of a tensor.
pub open spec fn rows_of(tensor: RowTensorRecord) -> usize {
    match tensor.row_count {
        Some(rows) => rows,
        None => 0,
    }
}

/// Where a row of a tensor stands in the core file.
pub open spec fn offset_of(tensor: RowTensorRecord, row: usize, row_bytes: usize) -> Result<
    u64,
    RowErrorView,
> {
    if row >= rows_of(tensor) {
        Err(RowErrorView::RowOutOfRange { tensor: tensor.name@, row, rows: rows_of(tensor) })
    } else if row * row_bytes > usize::MAX {
        Err(RowErrorView::InvalidIndex("row offset overflow"))
    } else if tensor.absolute_data_offset + row * row_bytes > u64::MAX {
        Err(RowErrorView::InvalidIndex("absolute row offset overflow"))
    } else {
        Ok((tensor.absolute_data_offset + row * row_bytes) as u64)
    }
}

/// Where a row of a tensor stands in the core file.
pub fn row_offset(tensor: &RowTensorRecord, row: usize, row_bytes: usize) -> (result: Result<
    u64,
    RowIndexError,
>)
    ensures
        is_due(result, offset_of(*tensor, row, row_bytes)),
{
    let rows: usize = match tensor.row_count {
        Some(rows) => rows,
        None => 0,
    };
    if row >= rows {
        return Err(
            RowIndexError::RowOutOfRange { tensor: tensor.name.clone(), row, rows },
        );
    }
    let relative: usize = match row.checked_mul(row_bytes) {
        Some(relative) => relative,
        None => {
            return Err(RowIndexError::InvalidIndex("row offset overflow"));
        },
    };
    match tensor.absolute_data_offset.checked_add(relative as u64) {
        Some(offset) => Ok(offset),
        None => Err(RowIndexError::InvalidIndex("absolute row offset overflow")),
    }
}

/// Rows of one tensor do not overlap.
pub proof fn law_rows_do_not_overlap(
    tensor: RowTensorRecord,
    first: usize,
    second: usize,
    row_bytes: usize,
)
    requires
        first < second,
        offset_of(tensor, first, row_bytes) is Ok,
        offset_of(tensor, second, row_bytes) is Ok,
    ensures
        offset_of(tensor, first, row_bytes)->Ok_0 + row_bytes <= offset_of(
            tensor,
            second,
            row_bytes,
        )->Ok_0,
{
    assert(first * row_bytes + row_bytes <= second * row_bytes) by (nonlinear_arith)
        requires
            first < second,
            row_bytes >= 0,
    ;
}

/// The numbers of a row, from its bytes.
pub fn decode_bf16_into(raw: &[u8], count: usize) -> (result: Result<Vec<u32>, RowIndexError>)
    ensures
        match result {
            Ok(values) => raw@.len() >= 2 * count && values@ == bf16_values(raw@, count as int),
            Err(error) => raw@.len() < 2 * count && error@ == RowErrorView::InvalidIndex(
                "BF16 row too small",
            ),
        },
{
    let len: usize = raw.len();
    if len / 2 < count {
        return Err(RowIndexError::InvalidIndex("BF16 row too small"));
    }
    Ok(load_bf16_values(raw, count))
}

/// Offers a score to the best `top_k`.
pub fn push_topk(best: &mut Vec<(u32, u32)>, top_k: usize, token: u32, logit_bits: u32)
    ensures
        final(best)@ == offered(old(best)@, top_k as int, token, logit_bits),
{
    push_topk_candidate(best, top_k, token, logit_bits);
}

/// The tokens of rows with their scores.
pub open spec fn row_scores(row_start: int, scores: Seq<u32>) -> Seq<(u32, u32)> {
    Seq::new(scores.len(), |i: int| ((row_start + i) as u32, scores[i]))
}

/// The best once all of `more` are offered, one after the other.
pub open spec fn best_after(best: Seq<(u32, u32)>, top_k: int, more: Seq<(u32, u32)>) -> Seq<
    (u32, u32),
>
    decreases more.len(),
{
    if more.len() == 0 {
        best
    } else {
        offered(best_after(best, top_k, more.drop_last()), top_k, more.last().0, more.last().1)
    }
}

/// Offers the scores of the rows from `row_start` on. At least one is kept.
pub fn offer_rows(best: &mut Vec<(u32, u32)>, top_k: usize, row_start: usize, scores: &[u32])
    requires
        row_start + scores@.len() <= usize::MAX,
    ensures
        final(best)@ == best_after(
            old(best)@,
            if top_k == 0 {
                1
            } else {
                top_k as int
            },
            row_scores(row_start as int, scores@),
        ),
{
    let kept: usize = if top_k == 0 {
        1
    } else {
        top_k
    };
    let ghost all = row_scores(row_start as int, scores@);
    let mut i: usize = 0;
    while i < scores.len()
        invariant
            i <= scores@.len(),
            row_start + scores@.len() <= usize::MAX,
            all == row_scores(row_start as int, scores@),
            best@ == best_after(old(best)@, kept as int, all.take(i as int)),
        decreases scores@.len() - i,
    {
        push_topk(best, kept, (row_start + i) as u32, scores[i]);
        proof {
            assert(all.take(i + 1).drop_last() =~= all.take(i as int));
        }
        i += 1;
    }
    proof {
        assert(all.take(i as int) =~= all);
    }
}

/// Scores may be offered in parts: the best are those of all scores.
pub proof fn law_best_of_parts(all: Seq<(u32, u32)>, more: Seq<(u32, u32)>, top_k: int)
    ensures
        best_after(best_of(all, top_k), top_k, more) == best_of(all + more, top_k),
    decreases more.len(),
{
    if more.len() == 0 {
        assert(all + more =~= all);
    } else {
        law_best_of_parts(all, more.drop_last(), top_k);
        assert((all + more).drop_last() =~= all + more.drop_last());
    }
}

/// How the rows of the head are read and scored.
#[derive(Clone, Copy, Debug, PartialEq, Eq, Structural)]
pub struct HeadRows {
    pub row_count: usize,
    pub row_width: usize,
    pub row_bytes: usize,
    pub rows_per_chunk: usize,
}

/// The rows of a chunk.
#[derive(Clone, Copy, Debug, PartialEq, Eq, Structural)]
pub struct HeadChunk {
    pub rows: usize,
    pub offset: u64,
    pub bytes: usize,
}

/// How many rows are read at once: as many as there is room for their scores,
/// in no more than the bytes of a chunk, and at least one.
pub open spec fn chunk_rows(scratch_len: int, row_bytes: int) -> int {
    let in_chunk = DEFAULT_CHUNK_BYTES as int / (if row_bytes == 0 {
        1
    } else {
        row_bytes
    });
    let fits = if in_chunk == 0 {
        1
    } else {
        in_chunk
    };
    if scratch_len == 0 {
        1
    } else if scratch_len < fits {
        scratch_len
    } else {
        fits
    }
}

/// How the rows of `tensor` are read and scored.
pub open spec fn head_rows(tensor: RowTensorRecord, hidden_len: usize, scratch_len: usize) -> Result<
    HeadRows,
    RowErrorView,
> {
    match bf16_rows_error(tensor) {
        Some(error) => Err(error),
        None => {
            let row_width = tensor.row_width->0;
            let row_bytes = tensor.row_bytes->0;
            if hidden_len < row_width {
                Err(RowErrorView::OutputTooSmall { required: row_width, actual: hidden_len })
            } else if scratch_len == 0 {
                Err(RowErrorView::OutputTooSmall { required: 1, actual: 0 })
            } else {
                Ok(
                    HeadRows {
                        row_count: tensor.row_count->0,
                        row_width,
                        row_bytes,
                        rows_per_chunk: chunk_rows(
                            scratch_len as int,
                            row_bytes as int,
                        ) as usize,
                    },
                )
            }
        },
    }
}

impl HeadRows {
    /// The rows have bytes, and chunks have rows that memory can hold.
    pub open spec fn wf(self) -> bool {
        &&& self.row_bytes > 0
        &&& self.rows_per_chunk > 0
        &&& self.rows_per_chunk * self.row_bytes <= usize::MAX
    }

    /// Number of rows in the chunk that starts at `row_start`.
    pub open spec fn rows_at(self, row_start: int) -> int {
        if self.rows_per_chunk < self.row_count - row_start {
            self.rows_per_chunk as int
        } else {
            self.row_count - row_start
        }
    }
}

/// The chunk of rows from `row_start` on.
pub fn head_chunk(tensor: &RowTensorRecord, head: HeadRows, row_start: usize) -> (result: Result<
    HeadChunk,
    RowIndexError,
>)
    requires
        head.wf(),
        row_start < head.row_count,
    ensures
        is_due(
            result,
            match offset_of(*tensor, row_start, head.row_bytes) {
                Err(error) => Err(error),
                Ok(offset) => Ok(
                    HeadChunk {
                        rows: head.rows_at(row_start as int) as usize,
                        offset,
                        bytes: (head.rows_at(row_start as int) * head.row_bytes) as usize,
                    },
                ),
            },
        ),
{
    let left: usize = head.row_count - row_start;
    let rows: usize = if head.rows_per_chunk < left {
        head.rows_per_chunk
    } else {
        left
    };
    proof {
        assert(rows * head.row_bytes <= head.rows_per_chunk * head.row_bytes) by (nonlinear_arith)
            requires
                rows <= head.rows_per_chunk,
                head.row_bytes >= 0,
        ;
    }
    let offset: u64 = row_offset(tensor, row_start, head.row_bytes)?;
    Ok(HeadChunk { rows, offset, bytes: rows * head.row_bytes })
}

/// Bytes of all rows of the head, where memory can hold as many.
pub fn head_bytes(head: HeadRows) -> (bytes: Option<usize>)
    ensures
        bytes == if head.row_count * head.row_bytes <= usize::MAX {
            Some((head.row_count * head.row_bytes) as usize)
        } else {
            None
        },
{
    head.row_count.checked_mul(head.row_bytes)
}

/// One text stands before another: by the first byte that differs, or as its
/// beginning.
pub open spec fn precedes(a: Seq<u8>, b: Seq<u8>) -> bool
    decreases a.len(),
{
    if b.len() == 0 {
        false
    } else if a.len() == 0 {
        true
    } else if a[0] != b[0] {
        a[0] < b[0]
    } else {
        precedes(a.skip(1), b.skip(1))
    }
}

fn text_precedes(a: &[u8], b: &[u8]) -> (before: bool)
    ensures
        before == precedes(a@, b@),
{
    let mut i: usize = 0;
    proof {
        assert(a@.skip(0) =~= a@);
        assert(b@.skip(0) =~= b@);
    }
    while i < a.len() && i < b.len()
        invariant
            i <= a.len(),
            i <= b.len(),
            precedes(a@, b@) == precedes(a@.skip(i as int), b@.skip(i as int)),
        decreases a.len() - i,
    {
        if a[i] != b[i] {
            return a[i] < b[i];
        }
        proof {
            assert(a@.skip(i as int).skip(1) =~= a@.skip(i + 1));
            assert(b@.skip(i as int).skip(1) =~= b@.skip(i + 1));
        }
        i += 1;
    }
    i < b.len()
}

proof fn lemma_precedes_total(a: Seq<u8>, b: Seq<u8>)
    ensures
        precedes(a, b) || precedes(b, a) || a == b,
    decreases a.len(),
{
    if a.len() > 0 && b.len() > 0 {
        lemma_precedes_total(a.skip(1), b.skip(1));
        if a[0] == b[0] && a.skip(1) == b.skip(1) {
            assert(a =~= seq![a[0]] + a.skip(1));
            assert(b =~= seq![b[0]] + b.skip(1));
        }
    } else if a.len() == 0 && b.len() == 0 {
        assert(a =~= b);
    }
}

proof fn lemma_precedes_through(a: Seq<u8>, b: Seq<u8>, c: Seq<u8>)
    requires
        precedes(a, b),
        precedes(b, c),
    ensures
        precedes(a, c),
    decreases a.len(),
{
    if a.len() > 0 && b.len() > 0 && c.len() > 0 && a[0] == b[0] && b[0] == c[0] {
        lemma_precedes_through(a.skip(1), b.skip(1), c.skip(1));
    }
}

/// Names in their order, none twice.
pub open spec fn names_ascend(names: Seq<String>) -> bool {
    forall|i: int, j: int|
        0 <= i < j < names.len() ==> precedes(
            encode_utf8((#[trigger] names[i])@),
            encode_utf8((#[trigger] names[j])@),
        )
}

/// A name is in a list.
pub open spec fn names_hold(names: Seq<String>, name: Seq<char>) -> bool {
    exists|i: int| 0 <= i < names.len() && (#[trigger] names[i])@ == name
}

fn insert_name(names: &mut Vec<String>, name: String)
    requires
        names_ascend(old(names)@),
        !names_hold(old(names)@, name@),
    ensures
        names_ascend(final(names)@),
        forall|other: Seq<char>| #[trigger]
            names_hold(final(names)@, other) == (names_hold(old(names)@, other) || other == name@),
{
    let ghost before = names@;
    let ghost text = name@;
    let mut at: usize = 0;
    while at < names.len() && text_precedes(names[at].as_str().as_bytes(), name.as_str().as_bytes())
        invariant
            at <= names@.len(),
            names@ == before,
            text == name@,
            forall|i: int|
                0 <= i < at ==> precedes(encode_utf8((#[trigger] before[i])@), encode_utf8(text)),
        decreases names@.len() - at,
    {
        at += 1;
    }
    proof {
        if at < before.len() {
            lemma_precedes_total(encode_utf8(before[at as int]@), encode_utf8(text));
            assert(before[at as int]@ != text);
            if encode_utf8(before[at as int]@) == encode_utf8(text) {
                vstd::utf8::encode_utf8_decode_utf8(before[at as int]@);
                vstd::utf8::encode_utf8_decode_utf8(text);
            }
        }
    }
    names.insert(at, name);
    proof {
        let after = names@;
        assert(after == before.insert(at as int, after[at as int]));
        assert forall|i: int, j: int| 0 <= i < j < after.len() implies precedes(
            encode_utf8((#[trigger] after[i])@),
            encode_utf8((#[trigger] after[j])@),
        ) by {
            if j < at {
                assert(after[i] == before[i] && after[j] == before[j]);
            } else if j == at {
                assert(after[i] == before[i]);
            } else if i < at {
                assert(after[i] == before[i] && after[j] == before[j - 1]);
            } else if i == at {
                assert(after[j] == before[j - 1]);
                if j - 1 > at {
                    assert(precedes(
                        encode_utf8(before[at as int]@),
                        encode_utf8(before[j - 1]@),
                    ));
                    lemma_precedes_through(
                        encode_utf8(text),
                        encode_utf8(before[at as int]@),
                        encode_utf8(before[j - 1]@),
                    );
                }
            } else {
                assert(after[i] == before[i - 1] && after[j] == before[j - 1]);
            }
        }
        assert forall|other: Seq<char>| #[trigger]
            names_hold(after, other) == (names_hold(before, other) || other == text) by {
            if names_hold(before, other) {
                let i = choose|i: int| 0 <= i < before.len() && (#[trigger] before[i])@ == other;
                if i < at {
                    assert(after[i]@ == other);
                } else {
                    assert(after[i + 1]@ == other);
                }
            }
            if other == text {
                assert(after[at as int]@ == other);
            }
            if names_hold(after, other) {
                let i = choose|i: int| 0 <= i < after.len() && (#[trigger] after[i])@ == other;
                if i < at {
                    assert(before[i]@ == other);
                } else if i > at {
                    assert(before[i - 1]@ == other);
                }
            }
        }
    }
}

impl RowIndexView {
    /// The tensor that holds the head.
    pub open spec fn head(self) -> Option<RowTensorRecord> {
        if self.tensors.contains_key("head.weight"@) {
            Some(self.tensors["head.weight"@])
        } else if self.tensors.contains_key("lm_head.weight"@) {
            Some(self.tensors["lm_head.weight"@])
        } else {
            None
        }
    }

    /// The bytes of a row of a tensor.
    pub open spec fn row_span(self, name: Seq<char>, row: usize) -> Result<
        Option<ReadSpan>,
        RowErrorView,
    > {
        if !self.tensors.contains_key(name) {
            Ok(None)
        } else {
            let tensor = self.tensors[name];
            match tensor.row_bytes {
                None => Err(RowErrorView::InvalidIndex("tensor is not row-addressable")),
                Some(bytes) => match offset_of(tensor, row, bytes) {
                    Err(error) => Err(error),
                    Ok(offset) => Ok(Some(ReadSpan { offset, bytes })),
                },
            }
        }
    }

    /// The bytes of a row of BF16 numbers, and how many numbers it has.
    pub open spec fn bf16_row(self, name: Seq<char>, row: usize, out_len: usize) -> Result<
        Option<(ReadSpan, usize)>,
        RowErrorView,
    > {
        if !self.tensors.contains_key(name) {
            Ok(None)
        } else {
            let tensor = self.tensors[name];
            match bf16_rows_error(tensor) {
                Some(error) => Err(error),
                None => if row >= rows_of(tensor) {
                    Ok(None)
                } else if out_len < tensor.row_width->0 {
                    Err(
                        RowErrorView::OutputTooSmall {
                            required: tensor.row_width->0,
                            actual: out_len,
                        },
                    )
                } else {
                    match offset_of(tensor, row, tensor.row_bytes->0) {
                        Err(error) => Err(error),
                        Ok(offset) => Ok(
                            Some(
                                (
                                    ReadSpan { offset, bytes: tensor.row_bytes->0 },
                                    tensor.row_width->0,
                                ),
                            ),
                        ),
                    }
                },
            }
        }
    }
}

impl RowTensorIndex {
    #[verifier::type_invariant]
    closed spec fn inv(self) -> bool {
        names_differ(self.tensors@)
    }

    /// The index of a model, if there is a file of it.
    pub fn load_for_model(file: Option<RowTensorIndexFile>, directory: Option<&str>) -> (result:
        Result<Option<Self>, RowIndexError>)
        ensures
            match file {
                None => result matches Ok(None),
                Some(file) => match file_error(file) {
                    Some(error) => result matches Err(found) && found@ == error,
                    None => result matches Ok(Some(index)) && index@ == (RowIndexView {
                        core_path: core_path(
                            match directory {
                                Some(directory) => Some(directory@),
                                None => None,
                            },
                            file.core_file@,
                        ),
                        tensors: by_name(file.tensors@, file.tensors@.len() as int),
                    }),
                },
            },
    {
        match file {
            None => Ok(None),
            Some(file) => {
                let index = Self::load(file, directory)?;
                Ok(Some(index))
            },
        }
    }

    /// The index in a file. Of tensors with one name the last counts.
    pub fn load(file: RowTensorIndexFile, directory: Option<&str>) -> (result: Result<
        Self,
        RowIndexError,
    >)
        ensures
            match file_error(file) {
                Some(error) => result matches Err(found) && found@ == error,
                None => result matches Ok(index) && index@ == (RowIndexView {
                    core_path: core_path(
                        match directory {
                            Some(directory) => Some(directory@),
                            None => None,
                        },
                        file.core_file@,
                    ),
                    tensors: by_name(file.tensors@, file.tensors@.len() as int),
                }),
            },
    {
        let format: &[u8] = file.format.as_str().as_bytes();
        if (!bytes_equal(format, "wohper-row-tensor-index".as_bytes()) && !bytes_equal(
            format,
            "zeroclaw-row-tensor-index".as_bytes(),
        )) || file.version != 1 {
            return Err(RowIndexError::InvalidIndex("unsupported format or version"));
        }
        if !bytes_equal(file.status.as_str().as_bytes(), "ready".as_bytes()) {
            return Err(RowIndexError::NotReady(file.status));
        }
        let core_path: String = resolve_core_path(directory, file.core_file.as_str());
        let ghost records = file.tensors@;
        let mut rest: Vec<RowTensorRecord> = file.tensors;
        let mut tensors: Vec<RowTensorRecord> = Vec::new();
        proof {
            assert(records.skip(0) =~= records);
        }
        let count: usize = rest.len();
        let mut i: usize = 0;
        while i < count
            invariant
                i <= count == records.len(),
                rest@ == records.skip(i as int),
                names_differ(tensors@),
                by_name(tensors@, tensors@.len() as int) == by_name(records, i as int),
            decreases count - i,
        {
            let ghost before = tensors@;
            let tensor: RowTensorRecord = rest.remove(0);
            proof {
                assert(rest@ =~= records.skip(i + 1));
                assert(tensor == records[i as int]);
            }
            match find_name(tensors.as_slice(), tensor.name.as_str()) {
                Some(at) => {
                    tensors.set(at, tensor);
                    proof {
                        lemma_replace(before, at as int, tensor);
                    }
                },
                None => {
                    tensors.push(tensor);
                    proof {
                        lemma_prefix_names(tensors@, before, before.len() as int);
                    }
                },
            }
            i += 1;
        }
        Ok(RowTensorIndex { core_path, tensors })
    }

    /// Where the core file is.
    pub fn core_path(&self) -> (path: &str)
        ensures
            path@ == self@.core_path,
    {
        self.core_path.as_str()
    }

    /// The tensor of a name.
    pub fn tensor(&self, name: &str) -> (tensor: Option<&RowTensorRecord>)
        ensures
            match tensor {
                Some(tensor) => self@.tensors.contains_key(name@) && *tensor
                    == self@.tensors[name@],
                None => !self@.tensors.contains_key(name@),
            },
    {
        proof {
            use_type_invariant(self);
            lemma_named(self.tensors@, self.tensors@.len() as int, name@);
        }
        match find_name(self.tensors.as_slice(), name) {
            Some(at) => Some(&self.tensors[at]),
            None => None,
        }
    }

    /// Is there a tensor of this name?
    pub fn has_tensor(&self, name: &str) -> (found: bool)
        ensures
            found == self@.tensors.contains_key(name@),
    {
        self.tensor(name).is_some()
    }

    /// The names that begin with `prefix`, in their order.
    pub fn tensor_names_with_prefix(&self, prefix: &str) -> (names: Vec<String>)
        ensures
            names_ascend(names@),
            forall|name: Seq<char>| #[trigger]
                names_hold(names@, name) == (self@.tensors.contains_key(name)
                    && starts_with_bytes(encode_utf8(name), prefix.spec_bytes())),
    {
        proof {
            use_type_invariant(self);
        }
        let mut names: Vec<String> = Vec::new();
        let mut i: usize = 0;
        while i < self.tensors.len()
            invariant
                i <= self.tensors@.len(),
                names_differ(self.tensors@),
                names_ascend(names@),
                forall|name: Seq<char>| #[trigger]
                    names_hold(names@, name) == (by_name(self.tensors@, i as int).contains_key(
                        name,
                    ) && starts_with_bytes(encode_utf8(name), prefix.spec_bytes())),
            decreases self.tensors@.len() - i,
        {
            let record: &RowTensorRecord = &self.tensors[i];
            if bytes_start_with(record.name.as_str().as_bytes(), prefix.as_bytes()) {
                proof {
                    lemma_named(self.tensors@, i as int, record.name@);
                    if by_name(self.tensors@, i as int).contains_key(record.name@) {
                        let j = choose|j: int|
                            0 <= j < i && (#[trigger] self.tensors@[j]).name@ == record.name@;
                        assert(self.tensors@[j].name@ != self.tensors@[i as int].name@);
                    }
                }
                insert_name(&mut names, record.name.clone());
            }
            i += 1;
        }
        names
    }

    /// The bytes of a whole tensor.
    pub fn tensor_span(&self, name: &str) -> (result: Result<ReadSpan, RowIndexError>)
        ensures
            is_due(
                result,
                if self@.tensors.contains_key(name@) {
                    Ok(
                        ReadSpan {
                            offset: self@.tensors[name@].absolute_data_offset,
                            bytes: self@.tensors[name@].data_bytes as usize,
                        },
                    )
                } else {
                    Err(RowErrorView::MissingTensor(name@))
                },
            ),
    {
        match self.tensor(name) {
            Some(tensor) => Ok(
                ReadSpan {
                    offset: tensor.absolute_data_offset,
                    bytes: tensor.data_bytes as usize,
                },
            ),
            None => Err(RowIndexError::MissingTensor(name.to_owned())),
        }
    }

    /// The first bytes of a tensor, `max_bytes` at most.
    pub fn prefix_span(&self, name: &str, max_bytes: usize) -> (span: Option<ReadSpan>)
        ensures
            span == if self@.tensors.contains_key(name@) {
                let bytes = self@.tensors[name@].data_bytes as usize;
                Some(
                    ReadSpan {
                        offset: self@.tensors[name@].absolute_data_offset,
                        bytes: if max_bytes < bytes {
                            max_bytes
                        } else {
                            bytes
                        },
                    },
                )
            } else {
                None
            },
    {
        match self.tensor(name) {
            Some(tensor) => {
                let bytes: usize = tensor.data_bytes as usize;
                Some(
                    ReadSpan {
                        offset: tensor.absolute_data_offset,
                        bytes: if max_bytes < bytes {
                            max_bytes
                        } else {
                            bytes
                        },
                    },
                )
            },
            None => None,
        }
    }

    /// The bytes of a row of a tensor.
    pub fn row_span(&self, name: &str, row: usize) -> (result: Result<
        Option<ReadSpan>,
        RowIndexError,
    >)
        ensures
            is_due(result, self@.row_span(name@, row)),
    {
        match self.tensor(name) {
            None => Ok(None),
            Some(tensor) => match tensor.row_bytes {
                None => Err(RowIndexError::InvalidIndex("tensor is not row-addressable")),
                Some(bytes) => {
                    let offset: u64 = row_offset(tensor, row, bytes)?;
                    Ok(Some(ReadSpan { offset, bytes }))
                },
            },
        }
    }

    /// Number of rows of the head.
    pub fn lm_head_row_count(&self) -> (rows: Option<usize>)
        ensures
            rows == match self@.head() {
                Some(tensor) => tensor.row_count,
                None => None,
            },
    {
        match self.head_tensor() {
            Some(tensor) => tensor.row_count,
            None => None,
        }
    }

    /// The tensor that holds the head.
    pub fn head_tensor(&self) -> (tensor: Option<&RowTensorRecord>)
        ensures
            match tensor {
                Some(tensor) => self@.head() == Some(*tensor),
                None => self@.head() is None,
            },
    {
        match self.tensor("head.weight") {
            Some(tensor) => Some(tensor),
            None => self.tensor("lm_head.weight"),
        }
    }

    /// The bytes of a row of BF16 numbers, and how many numbers it has. `None`
    /// where the tensor is not there or has fewer rows.
    pub fn bf16_row_span(&self, name: &str, row: usize, out_len: usize) -> (result: Result<
        Option<(ReadSpan, usize)>,
        RowIndexError,
    >)
        ensures
            is_due(result, self@.bf16_row(name@, row, out_len)),
    {
        let tensor: &RowTensorRecord = match self.tensor(name) {
            None => {
                return Ok(None);
            },
            Some(tensor) => tensor,
        };
        validate_bf16_row_tensor(tensor)?;
        match (tensor.row_count, tensor.row_width, tensor.row_bytes) {
            (Some(row_count), Some(row_width), Some(row_bytes)) => {
                if row >= row_count {
                    return Ok(None);
                }
                if out_len < row_width {
                    return Err(
                        RowIndexError::OutputTooSmall { required: row_width, actual: out_len },
                    );
                }
                let offset: u64 = row_offset(tensor, row, row_bytes)?;
                Ok(Some((ReadSpan { offset, bytes: row_bytes }, row_width)))
            },
            _ => Ok(None),
        }
    }
}

/// How the rows of the head are read and scored.
pub fn plan_head_rows(tensor: &RowTensorRecord, hidden_len: usize, scratch_len: usize) -> (result:
    Result<HeadRows, RowIndexError>)
    ensures
        is_due(result, head_rows(*tensor, hidden_len, scratch_len)),
        result matches Ok(head) ==> head.wf(),
{
    validate_bf16_row_tensor(tensor)?;
    let (row_count, row_width, row_bytes): (usize, usize, usize) = match (
        tensor.row_count,
        tensor.row_width,
        tensor.row_bytes,
    ) {
        (Some(row_count), Some(row_width), Some(row_bytes)) => (row_count, row_width, row_bytes),
        _ => (0, 0, 0),
    };
    if hidden_len < row_width {
        return Err(RowIndexError::OutputTooSmall { required: row_width, actual: hidden_len });
    }
    if scratch_len == 0 {
        return Err(RowIndexError::OutputTooSmall { required: 1, actual: 0 });
    }
    let in_chunk: usize = DEFAULT_CHUNK_BYTES / row_bytes;
    let fits: usize = if in_chunk == 0 {
        1
    } else {
        in_chunk
    };
    let rows_per_chunk: usize = if scratch_len < fits {
        scratch_len
    } else {
        fits
    };
    proof {
        assert(in_chunk * row_bytes <= DEFAULT_CHUNK_BYTES) by (nonlinear_arith)
            requires
                in_chunk == DEFAULT_CHUNK_BYTES / row_bytes,
                row_bytes > 0,
        ;
        assert(rows_per_chunk * row_bytes <= fits * row_bytes) by (nonlinear_arith)
            requires
                rows_per_chunk <= fits,
                row_bytes >= 0,
        ;
        if in_chunk == 0 {
            assert(fits * row_bytes == row_bytes) by (nonlinear_arith)
                requires
                    fits == 1,
            ;
        }
    }
    Ok(HeadRows { row_count, row_width, row_bytes, rows_per_chunk })
}

proof fn lemma_replace(records: Seq<RowTensorRecord>, at: int, record: RowTensorRecord)
    requires
        names_differ(records),
        0 <= at < records.len(),
        records[at].name@ == record.name@,
    ensures
        names_differ(records.update(at, record)),
        by_name(records.update(at, record), records.len() as int) == by_name(
            records,
            records.len() as int,
        ).insert(record.name@, record),
{
    let after = records.update(at, record);
    let n = records.len() as int;
    assert forall|i: int, j: int| 0 <= i < j < after.len() implies (#[trigger] after[i]).name@ != (
    #[trigger] after[j]).name@ by {
        assert(records[i].name@ != records[j].name@);
    }
    let left = by_name(after, n);
    let right = by_name(records, n).insert(record.name@, record);
    assert forall|name: Seq<char>| #![trigger left.dom().contains(name)]
        #![trigger right.dom().contains(name)]
        left.dom().contains(name) == right.dom().contains(name) && (left.contains_key(name)
            ==> left[name] == right[name]) by {
        lemma_named(after, n, name);
        lemma_named(records, n, name);
        if left.contains_key(name) {
            let i = choose|i: int| 0 <= i < n && (#[trigger] after[i]).name@ == name;
            assert(records[i].name@ == name);
        }
        if by_name(records, n).contains_key(name) {
            let i = choose|i: int| 0 <= i < n && (#[trigger] records[i]).name@ == name;
            assert(after[i].name@ == name);
        }
        assert(after[at].name@ == record.name@);
    }
    assert(left =~= right);
}

/// An index knows a tensor by the last record that carries its name, and no other
/// names.
pub proof fn law_last_record_counts(records: Seq<RowTensorRecord>, n: int, name: Seq<char>)
    requires
        0 <= n <= records.len(),
    ensures
        by_name(records, n).contains_key(name) == exists|i: int|
            0 <= i < n && (#[trigger] records[i]).name@ == name,
        by_name(records, n).contains_key(name) ==> exists|i: int|
            0 <= i < n && (#[trigger] records[i]).name@ == name && by_name(records, n)[name]
                == records[i] && forall|j: int|
                i < j < n ==> (#[trigger] records[j]).name@ != name,
    decreases n,
{
    if n > 0 {
        law_last_record_counts(records, n - 1, name);
        if records[n - 1].name@ == name {
            assert(by_name(records, n)[name] == records[n - 1]);
        } else {
            assert(by_name(records, n).contains_key(name) == by_name(records, n - 1).contains_key(
                name,
            ));
            if by_name(records, n - 1).contains_key(name) {
                assert(by_name(records, n)[name] == by_name(records, n - 1)[name]);
            }
        }
    }
}

/// Rows of a tensor lie one behind the other from its first byte on, and none lies
/// behind the last.
pub proof fn law_rows_lie_in_order(
    index: RowIndexView,
    name: Seq<char>,
    row: usize,
    out_len: usize,
)
    ensures
        index.row_span(name, row) matches Ok(Some(span)) ==> {
            let tensor = index.tensors[name];
            &&& index.tensors.contains_key(name)
            &&& tensor.row_bytes == Some(span.bytes)
            &&& row < rows_of(tensor)
            &&& row == 0 ==> span.offset == tensor.absolute_data_offset
            &&& row > 0 ==> (index.row_span(name, (row - 1) as usize) matches Ok(Some(before))
                && before.bytes == span.bytes && before.offset + before.bytes == span.offset)
        },
        index.bf16_row(name, row, out_len) matches Ok(Some((span, width))) ==> {
            let tensor = index.tensors[name];
            &&& index.row_span(name, row) == Ok::<Option<ReadSpan>, RowErrorView>(Some(span))
            &&& tensor.row_width == Some(width)
            &&& width <= out_len
            &&& tensor.dtype_code == 11
        },
        index.row_span(name, row) == Ok::<Option<ReadSpan>, RowErrorView>(None)
            <==> !index.tensors.contains_key(name),
{
    if index.tensors.contains_key(name) && index.tensors[name].row_bytes is Some && row > 0 {
        let bytes = index.tensors[name].row_bytes->0 as int;
        assert((row - 1) * bytes + bytes == row * bytes) by (nonlinear_arith);
        assert((row - 1) * bytes >= 0) by (nonlinear_arith)
            requires
                row >= 1,
                bytes >= 0,
        ;
    }
    if row == 0 && index.tensors.contains_key(name) && index.tensors[name].row_bytes is Some {
        let bytes = index.tensors[name].row_bytes->0 as int;
        assert(0 * bytes == 0) by (nonlinear_arith);
    }
}

/// Chunks divide the rows: a chunk starts where the one before it ends, the last
/// ends with the last row, and every chunk fits the scratch, and the size of a
/// chunk unless one row alone is larger.
pub proof fn law_chunks_divide_the_rows(
    tensor: RowTensorRecord,
    hidden_len: usize,
    scratch_len: usize,
    row_start: int,
)
    requires
        0 <= row_start,
    ensures
        head_rows(tensor, hidden_len, scratch_len) matches Ok(head) ==> {
            &&& tensor.row_count == Some(head.row_count)
            &&& tensor.row_width == Some(head.row_width)
            &&& tensor.row_bytes == Some(head.row_bytes)
            &&& head.row_width <= hidden_len
            &&& 1 <= head.rows_per_chunk <= scratch_len
            &&& head.rows_per_chunk == 1 || head.rows_per_chunk * head.row_bytes <= 0x100_0000
            &&& row_start < head.row_count ==> {
                &&& 1 <= head.rows_at(row_start) <= head.rows_per_chunk
                &&& row_start + head.rows_at(row_start) <= head.row_count
                &&& head.rows_at(row_start) < head.rows_per_chunk ==> row_start + head.rows_at(
                    row_start,
                ) == head.row_count
            }
        },
{
    if head_rows(tensor, hidden_len, scratch_len) is Ok {
        let head = head_rows(tensor, hidden_len, scratch_len)->Ok_0;
        let bytes = head.row_bytes as int;
        let in_chunk = 0x100_0000int / bytes;
        vstd::arithmetic::div_mod::lemma_fundamental_div_mod(0x100_0000, bytes);
        vstd::arithmetic::div_mod::lemma_mod_bound(0x100_0000, bytes);
        assert(in_chunk >= 0) by {
            vstd::arithmetic::div_mod::lemma_div_pos_is_pos(0x100_0000, bytes);
        }
        if head.rows_per_chunk <= in_chunk {
            assert(head.rows_per_chunk * bytes <= bytes * in_chunk) by (nonlinear_arith)
                requires
                    head.rows_per_chunk <= in_chunk,
                    bytes > 0,
            ;
        }
    }
}

/// Scores of rows carry the numbers of their rows, whether they come at once or
/// chunk by chunk.
pub proof fn law_scores_keep_their_rows(row_start: int, first: Seq<u32>, second: Seq<u32>)
    requires
        0 <= row_start,
        row_start + first.len() + second.len() <= u32::MAX,
    ensures
        row_scores(row_start, first) + row_scores(row_start + first.len(), second) == row_scores(
            row_start,
            first + second,
        ),
        forall|i: int|
            0 <= i < first.len() ==> (#[trigger] row_scores(row_start, first)[i]).0 == row_start + i
                && row_scores(row_start, first)[i].1 == first[i],
{
    assert(row_scores(row_start, first) + row_scores(row_start + first.len(), second)
        =~= row_scores(row_start, first + second));
}

/// The file of an index lies in its directory unless its path starts at the root;
/// one slash parts the two.
pub proof fn law_files_lie_in_their_directory(directory: Seq<char>, core_file: Seq<char>)
    ensures
        core_file.len() > 0 && core_file[0] == '/' ==> core_path(Some(directory), core_file)
            == core_file,
        core_file.len() == 0 || core_file[0] != '/' ==> {
            let path = core_path(Some(directory), core_file);
            &&& directory.is_prefix_of(path)
            &&& path.skip(path.len() - core_file.len()) == core_file
            &&& directory.len() > 0 ==> path[path.len() - core_file.len() - 1] == '/'
            &&& path.len() <= directory.len() + 1 + core_file.len()
        },
        core_path(None, core_file) == core_path(Some(seq!['.']), core_file),
{
    let path = core_path(Some(directory), core_file);
    if core_file.len() == 0 || core_file[0] != '/' {
        assert(path.skip(path.len() - core_file.len()) =~= core_file);
    }
}

/// The output head is the tensor of either of its two names, the shorter one
/// first.
pub proof fn law_heads_go_by_name(index: RowIndexView)
    ensures
        index.tensors.contains_key("head.weight"@) ==> index.head() == Some(
            index.tensors["head.weight"@],
        ),
        !index.tensors.contains_key("head.weight"@) && index.tensors.contains_key("lm_head.weight"@)
            ==> index.head() == Some(index.tensors["lm_head.weight"@]),
        index.head() is None <==> !index.tensors.contains_key("head.weight"@)
            && !index.tensors.contains_key("lm_head.weight"@),
{
}

/// What `row_offset` returns: rows in a row stand right behind each other, the first
/// where the tensor starts.
pub proof fn law_row_offset(
    tensor: &RowTensorRecord,
    row: usize,
    row_bytes: usize,
    offset: u64,
    next: u64,
)
    requires
        row < usize::MAX,
        call_ensures(row_offset, (tensor, row, row_bytes), Ok::<u64, RowIndexError>(offset)),
        call_ensures(
            row_offset,
            (tensor, (row + 1) as usize, row_bytes),
            Ok::<u64, RowIndexError>(next),
        ),
    ensures
        next == offset + row_bytes,
        row == 0 ==> offset == tensor.absolute_data_offset,
{
    assert((row + 1) * row_bytes == row * row_bytes + row_bytes) by (nonlinear_arith);
    assert(row == 0 ==> row * row_bytes == 0) by (nonlinear_arith);
    assert(0 <= row * row_bytes) by (nonlinear_arith);
}

/// What `head_chunk` returns: a chunk that starts at its row, holds no more rows than
/// are left or fit, and as many bytes as they have.
pub proof fn law_head_chunk(
    tensor: &RowTensorRecord,
    head: HeadRows,
    row_start: usize,
    chunk: HeadChunk,
)
    requires
        head.wf(),
        row_start < head.row_count,
        call_ensures(head_chunk, (tensor, head, row_start), Ok::<HeadChunk, RowIndexError>(chunk)),
    ensures
        chunk.offset == tensor.absolute_data_offset + row_start * head.row_bytes,
        1 <= chunk.rows <= head.rows_per_chunk,
        row_start + chunk.rows <= head.row_count,
        chunk.rows < head.rows_per_chunk ==> row_start + chunk.rows == head.row_count,
        chunk.bytes == chunk.rows * head.row_bytes,
{
    let rows = head.rows_at(row_start as int);
    assert(0 <= rows * head.row_bytes <= head.rows_per_chunk * head.row_bytes) by (nonlinear_arith)
        requires
            0 <= rows <= head.rows_per_chunk,
    ;
    assert(0 <= row_start * head.row_bytes) by (nonlinear_arith);
}

} // verus!
