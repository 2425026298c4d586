//! Key and value cache over storage that the caller provides. All keys come
//! before all values; in each half, layer by layer and token by token, stands
//! one vector per token.

use crate::compute::error::ComputeError;
use vstd::prelude::*;

verus! {

/// A cache of keys and values of type `T`.
pub struct KVCache<'a, T> {
    storage: &'a mut [T],
    pub num_layers: usize,
    pub max_tokens: usize,
    pub num_kv_heads: usize,
    pub head_dim: usize,
    pub cursor: usize,
}

/// What a cache holds.
#[verifier::ext_equal]
pub struct KvView<T> {
    pub storage: Seq<T>,
    pub num_layers: usize,
    pub max_tokens: usize,
    pub num_kv_heads: usize,
    pub head_dim: usize,
    pub cursor: usize,
}

impl<'a, T> View for KVCache<'a, T> {
    type V = KvView<T>;

    closed spec fn view(&self) -> KvView<T> {
        KvView {
            storage: self.storage@,
            num_layers: self.num_layers,
            max_tokens: self.max_tokens,
            num_kv_heads: self.num_kv_heads,
            head_dim: self.head_dim,
            cursor: self.cursor,
        }
    }
}

/// `storage` with `part` written over it from `at` on.
pub open spec fn overlay<T>(storage: Seq<T>, at: int, part: Seq<T>) -> Seq<T> {
    Seq::new(
        storage.len(),
        |i: int|
            if at <= i < at + part.len() {
                part[i - at]
            } else {
                storage[i]
            },
    )
}

impl<T> KvView<T> {
    /// Length of one token's key, or value.
    pub open spec fn vector_len(self) -> int {
        self.num_kv_heads * self.head_dim
    }

    /// Number of tokens that fit, over all layers.
    pub open spec fn slots(self) -> int {
        self.num_layers * self.max_tokens
    }

    /// The storage is as long as the shape asks for.
    pub open spec fn wf(self) -> bool {
        &&& self.slots() <= usize::MAX
        &&& self.storage.len() == 2 * (self.slots() * self.vector_len())
    }

    /// The place of a token among all slots.
    pub open spec fn slot(self, layer_id: int, token_pos: int) -> int {
        layer_id * self.max_tokens + token_pos
    }

    /// Where the key of a token begins.
    pub open spec fn key_at(self, layer_id: int, token_pos: int) -> int {
        self.slot(layer_id, token_pos) * self.vector_len()
    }

    /// Where the value of a token begins.
    pub open spec fn value_at(self, layer_id: int, token_pos: int) -> int {
        self.slots() * self.vector_len() + self.key_at(layer_id, token_pos)
    }

    /// The key of a token.
    pub open spec fn key(self, layer_id: int, token_pos: int) -> Seq<T> {
        let at = self.key_at(layer_id, token_pos);
        self.storage.subrange(at, at + self.vector_len())
    }

    /// The value of a token.
    pub open spec fn value(self, layer_id: int, token_pos: int) -> Seq<T> {
        let at = self.value_at(layer_id, token_pos);
        self.storage.subrange(at, at + self.vector_len())
    }

    /// The cache holds this token's slot.
    pub open spec fn has_slot(self, layer_id: int, token_pos: int) -> bool {
        0 <= layer_id < self.num_layers && 0 <= token_pos < self.max_tokens
    }

    /// The cache after a token's key and value were written.
    pub open spec fn with_token(
        self,
        layer_id: int,
        token_pos: int,
        key: Seq<T>,
        value: Seq<T>,
    ) -> KvView<T> {
        KvView {
            storage: overlay(
                overlay(self.storage, self.key_at(layer_id, token_pos), key),
                self.value_at(layer_id, token_pos),
                value,
            ),
            cursor: if self.cursor < token_pos + 1 {
                (token_pos + 1) as usize
            } else {
                self.cursor
            },
            ..self
        }
    }

    /// The cache after `latent` was written to the front of a token's key.
    pub open spec fn with_latent(self, layer_id: int, token_pos: int, latent: Seq<T>) -> KvView<T> {
        self.with_token(
            layer_id,
            token_pos,
            overlay(self.key(layer_id, token_pos), 0, latent),
            self.value(layer_id, token_pos),
        )
    }

    /// Why a slot cannot be had, if it cannot.
    pub open spec fn slot_error(self, layer_id: int, token_pos: int) -> Option<ComputeError> {
        if self.vector_len() > usize::MAX {
            Some(ComputeError::InvalidShape("KV vector size overflow"))
        } else if !self.has_slot(layer_id, token_pos) {
            Some(ComputeError::InvalidShape("KV cache index out of range"))
        } else {
            None
        }
    }

    /// Why a token cannot be appended, if it cannot.
    pub open spec fn append_error(
        self,
        layer_id: int,
        token_pos: int,
        key_len: int,
        value_len: int,
    ) -> Option<ComputeError> {
        if self.vector_len() > usize::MAX {
            Some(ComputeError::InvalidShape("KV vector size overflow"))
        } else if key_len < self.vector_len() || value_len < self.vector_len() {
            Some(ComputeError::InvalidShape("KV append vector too small"))
        } else if !self.has_slot(layer_id, token_pos) {
            Some(ComputeError::InvalidShape("KV append index out of range"))
        } else {
            None
        }
    }
}

/// Elements that a cache of this shape needs.
pub open spec fn kv_required(
    num_layers: usize,
    max_tokens: usize,
    num_kv_heads: usize,
    head_dim: usize,
) -> Result<usize, ComputeError> {
    let tokens = num_layers * max_tokens;
    let heads = tokens * num_kv_heads;
    let elements = heads * head_dim;
    if tokens > usize::MAX || heads > usize::MAX || elements > usize::MAX || 2 * elements
        > usize::MAX {
        Err(ComputeError::InvalidShape("KV cache size overflow"))
    } else {
        Ok((2 * elements) as usize)
    }
}

proof fn lemma_slot_fits<T>(kv: KvView<T>, layer_id: int, token_pos: int)
    requires
        kv.wf(),
        kv.has_slot(layer_id, token_pos),
        kv.storage.len() <= usize::MAX,
    ensures
        kv.vector_len() >= 0,
        0 <= kv.slot(layer_id, token_pos) < kv.slots(),
        0 <= kv.key_at(layer_id, token_pos),
        kv.key_at(layer_id, token_pos) + kv.vector_len() <= kv.slots() * kv.vector_len(),
        kv.slots() * kv.vector_len() == kv.storage.len() / 2,
        kv.value_at(layer_id, token_pos) + kv.vector_len() <= kv.storage.len(),
{
    let tokens = kv.max_tokens as int;
    let layers = kv.num_layers as int;
    assert(kv.vector_len() >= 0) by (nonlinear_arith)
        requires
            kv.vector_len() == kv.num_kv_heads * kv.head_dim,
    ;
    assert(0 <= layer_id * tokens && layer_id * tokens + tokens <= layers * tokens)
        by (nonlinear_arith)
        requires
            0 <= layer_id < layers,
            0 <= tokens,
    ;
    let slot = kv.slot(layer_id, token_pos);
    let width = kv.vector_len();
    let slots = kv.slots();
    assert(0 <= slot * width && slot * width + width <= slots * width) by (nonlinear_arith)
        requires
            0 <= slot < slots,
            0 <= width,
    ;
}

proof fn lemma_slots_apart<T>(kv: KvView<T>, l1: int, p1: int, l2: int, p2: int)
    requires
        kv.has_slot(l1, p1),
        kv.has_slot(l2, p2),
        l1 != l2 || p1 != p2,
    ensures
        kv.key_at(l1, p1) + kv.vector_len() <= kv.key_at(l2, p2) || kv.key_at(l2, p2)
            + kv.vector_len() <= kv.key_at(l1, p1),
{
    let tokens = kv.max_tokens as int;
    let width = kv.vector_len();
    assert(width >= 0) by (nonlinear_arith)
        requires
            width == kv.num_kv_heads * kv.head_dim,
    ;
    let s1 = kv.slot(l1, p1);
    let s2 = kv.slot(l2, p2);
    assert(s1 != s2) by (nonlinear_arith)
        requires
            s1 == l1 * tokens + p1,
            s2 == l2 * tokens + p2,
            0 <= p1 < tokens,
            0 <= p2 < tokens,
            l1 != l2 || p1 != p2,
    ;
    if s1 < s2 {
        assert(s1 * width + width <= s2 * width) by (nonlinear_arith)
            requires
                s1 + 1 <= s2,
                0 <= width,
        ;
    } else {
        assert(s2 * width + width <= s1 * width) by (nonlinear_arith)
            requires
                s2 + 1 <= s1,
                0 <= width,
        ;
    }
}

/// What was written for a token is what its slot gives back.
pub proof fn law_read_gives_back_write<T>(
    kv: KvView<T>,
    layer_id: int,
    token_pos: int,
    key: Seq<T>,
    value: Seq<T>,
)
    requires
        kv.wf(),
        kv.storage.len() <= usize::MAX,
        kv.has_slot(layer_id, token_pos),
        key.len() == kv.vector_len(),
        value.len() == kv.vector_len(),
    ensures
        kv.with_token(layer_id, token_pos, key, value).wf(),
        kv.with_token(layer_id, token_pos, key, value).key(layer_id, token_pos) == key,
        kv.with_token(layer_id, token_pos, key, value).value(layer_id, token_pos) == value,
{
    lemma_slot_fits(kv, layer_id, token_pos);
    let next = kv.with_token(layer_id, token_pos, key, value);
    assert(next.key(layer_id, token_pos) =~= key);
    assert(next.value(layer_id, token_pos) =~= value);
}

/// Writing one token leaves every other token as it was.
pub proof fn law_write_keeps_other_tokens<T>(
    kv: KvView<T>,
    layer_id: int,
    token_pos: int,
    key: Seq<T>,
    value: Seq<T>,
    other_layer: int,
    other_pos: int,
)
    requires
        kv.wf(),
        kv.storage.len() <= usize::MAX,
        kv.has_slot(layer_id, token_pos),
        kv.has_slot(other_layer, other_pos),
        layer_id != other_layer || token_pos != other_pos,
        key.len() == kv.vector_len(),
        value.len() == kv.vector_len(),
    ensures
        kv.with_token(layer_id, token_pos, key, value).key(other_layer, other_pos) == kv.key(
            other_layer,
            other_pos,
        ),
        kv.with_token(layer_id, token_pos, key, value).value(other_layer, other_pos) == kv.value(
            other_layer,
            other_pos,
        ),
{
    lemma_slot_fits(kv, layer_id, token_pos);
    lemma_slot_fits(kv, other_layer, other_pos);
    lemma_slots_apart(kv, layer_id, token_pos, other_layer, other_pos);
    let next = kv.with_token(layer_id, token_pos, key, value);
    assert(next.key(other_layer, other_pos) =~= kv.key(other_layer, other_pos));
    assert(next.value(other_layer, other_pos) =~= kv.value(other_layer, other_pos));
}

/// The cache once the latents of the first `n` positions were written.
pub open spec fn latents_written<T>(
    kv: KvView<T>,
    layer_id: int,
    positions: Seq<usize>,
    latents: Seq<Seq<T>>,
    n: int,
) -> KvView<T>
    decreases n,
{
    if n <= 0 {
        kv
    } else {
        latents_written(kv, layer_id, positions, latents, n - 1).with_latent(
            layer_id,
            positions[n - 1] as int,
            latents[n - 1],
        )
    }
}

/// Positions rise from each to the next.
pub open spec fn ascend(positions: Seq<usize>) -> bool {
    forall|i: int, j: int|
        0 <= i < j < positions.len() ==> #[trigger] positions[i] < #[trigger] positions[j]
}

proof fn lemma_latents_shape<T>(
    kv: KvView<T>,
    layer_id: int,
    positions: Seq<usize>,
    latents: Seq<Seq<T>>,
    n: int,
)
    requires
        kv.wf(),
        kv.storage.len() <= usize::MAX,
        0 <= n <= positions.len(),
        forall|i: int| 0 <= i < n ==> kv.has_slot(layer_id, #[trigger] positions[i] as int),
    ensures
        ({
            let after = latents_written(kv, layer_id, positions, latents, n);
            &&& after.wf()
            &&& after == (KvView { storage: after.storage, cursor: after.cursor, ..kv })
            &&& after.storage.len() == kv.storage.len()
        }),
    decreases n,
{
    if n > 0 {
        lemma_latents_shape(kv, layer_id, positions, latents, n - 1);
    }
}

/// Writing the latents of later positions changes no key and no value up to a
/// position: after all positions were written it sees what it saw after its own.
pub proof fn law_later_latents_are_not_seen<T>(
    kv: KvView<T>,
    layer_id: int,
    positions: Seq<usize>,
    latents: Seq<Seq<T>>,
    index: int,
    n: int,
    seen: int,
)
    requires
        kv.wf(),
        kv.storage.len() <= usize::MAX,
        ascend(positions),
        0 <= index < n <= positions.len(),
        forall|i: int| 0 <= i < n ==> kv.has_slot(layer_id, #[trigger] positions[i] as int),
        0 <= seen <= positions[index],
    ensures
        latents_written(kv, layer_id, positions, latents, n).key(layer_id, seen)
            == latents_written(kv, layer_id, positions, latents, index + 1).key(layer_id, seen),
        latents_written(kv, layer_id, positions, latents, n).value(layer_id, seen)
            == latents_written(kv, layer_id, positions, latents, index + 1).value(layer_id, seen),
    decreases n,
{
    if n > index + 1 {
        law_later_latents_are_not_seen(kv, layer_id, positions, latents, index, n - 1, seen);
        lemma_latents_shape(kv, layer_id, positions, latents, n - 1);
        let before = latents_written(kv, layer_id, positions, latents, n - 1);
        let pos = positions[n - 1] as int;
        assert(positions[index] < positions[n - 1]);
        assert(kv.has_slot(layer_id, pos));
        lemma_slot_fits(before, layer_id, pos);
        law_write_keeps_other_tokens(
            before,
            layer_id,
            pos,
            overlay(before.key(layer_id, pos), 0, latents[n - 1]),
            before.value(layer_id, pos),
            layer_id,
            seen,
        );
    }
}

impl<'a, T: Copy> KVCache<'a, T> {
    /// Elements that a cache of this shape needs.
    pub fn required_f32(
        num_layers: usize,
        max_tokens: usize,
        num_kv_heads: usize,
        head_dim: usize,
    ) -> (result: Result<usize, ComputeError>)
        ensures
            result == kv_required(num_layers, max_tokens, num_kv_heads, head_dim),
    {
        let tokens: usize = match num_layers.checked_mul(max_tokens) {
            Some(value) => value,
            None => return Err(ComputeError::InvalidShape("KV cache size overflow")),
        };
        let heads: usize = match tokens.checked_mul(num_kv_heads) {
            Some(value) => value,
            None => return Err(ComputeError::InvalidShape("KV cache size overflow")),
        };
        let elements: usize = match heads.checked_mul(head_dim) {
            Some(value) => value,
            None => return Err(ComputeError::InvalidShape("KV cache size overflow")),
        };
        match elements.checked_mul(2) {
            Some(value) => Ok(value),
            None => Err(ComputeError::InvalidShape("KV cache size overflow")),
        }
    }

    /// A cache in the first elements of `storage`, all of them set to `zero`. What
    /// lies behind them, or a storage that is too small, stays as it is.
    pub fn from_scratch(
        storage: &'a mut [T],
        num_layers: usize,
        max_tokens: usize,
        num_kv_heads: usize,
        head_dim: usize,
        zero: T,
    ) -> (result: Result<Self, ComputeError>)
        ensures
            match kv_required(num_layers, max_tokens, num_kv_heads, head_dim) {
                Err(error) => result == Err::<Self, ComputeError>(error) && final(storage)@ == old(
                    storage,
                )@,
                Ok(required) => if old(storage)@.len() < required {
                    result == Err::<Self, ComputeError>(
                        ComputeError::ScratchTooSmall {
                            required,
                            actual: old(storage)@.len() as usize,
                        },
                    ) && final(storage)@ == old(storage)@
                } else {
                    &&& result matches Ok(cache)
                    &&& cache@ == (KvView {
                        storage: Seq::new(required as nat, |i: int| zero),
                        num_layers,
                        max_tokens,
                        num_kv_heads,
                        head_dim,
                        cursor: 0,
                    })
                    &&& cache@.wf()
                    &&& final(storage)@.len() == old(storage)@.len() ==> final(storage)@.skip(
                        required as int,
                    ) == old(storage)@.skip(required as int)
                },
            },
    {
        let required: usize = match Self::required_f32(
            num_layers,
            max_tokens,
            num_kv_heads,
            head_dim,
        ) {
            Ok(required) => required,
            Err(error) => return Err(error),
        };
        if storage.len() < required {
            return Err(ComputeError::ScratchTooSmall { required, actual: storage.len() });
        }
        let (head, _tail) = storage.split_at_mut(required);
        let mut i: usize = 0;
        while i < required
            invariant
                i <= required,
                head@.len() == required,
                forall|j: int| 0 <= j < i ==> head@[j] == zero,
            decreases required - i,
        {
            head[i] = zero;
            i += 1;
        }
        proof {
            assert(head@ =~= Seq::new(required as nat, |i: int| zero));
            assert((num_layers * max_tokens) * (num_kv_heads * head_dim) == num_layers * max_tokens
                * num_kv_heads * head_dim) by (nonlinear_arith);
        }
        Ok(KVCache { storage: head, num_layers, max_tokens, num_kv_heads, head_dim, cursor: 0 })
    }

    /// Writes the key and value of a token.
    pub fn append(
        &mut self,
        layer_id: usize,
        token_pos: usize,
        key: &[T],
        value: &[T],
    ) -> (result: Result<(), ComputeError>)
        requires
            old(self)@.wf(),
        ensures
            final(self)@.wf(),
            match old(self)@.append_error(
                layer_id as int,
                token_pos as int,
                key@.len() as int,
                value@.len() as int,
            ) {
                Some(error) => result == Err::<(), ComputeError>(error) && final(self)@ == old(
                    self,
                )@,
                None => result is Ok && final(self)@ == old(self)@.with_token(
                    layer_id as int,
                    token_pos as int,
                    key@.take(old(self)@.vector_len()),
                    value@.take(old(self)@.vector_len()),
                ),
            },
    {
        let vector_len: usize = match self.num_kv_heads.checked_mul(self.head_dim) {
            Some(len) => len,
            None => return Err(ComputeError::InvalidShape("KV vector size overflow")),
        };
        if key.len() < vector_len || value.len() < vector_len {
            return Err(ComputeError::InvalidShape("KV append vector too small"));
        }
        if layer_id >= self.num_layers || token_pos >= self.max_tokens {
            return Err(ComputeError::InvalidShape("KV append index out of range"));
        }
        let half: usize = self.storage.len() / 2;
        proof {
            lemma_slot_fits(old(self)@, layer_id as int, token_pos as int);
        }
        let base: usize = self.slot_offset(layer_id, token_pos, vector_len);
        let ghost before = self@;
        let mut i: usize = 0;
        while i < vector_len
            invariant
                i <= vector_len,
                vector_len == before.vector_len(),
                key@.len() >= vector_len,
                value@.len() >= vector_len,
                base == before.key_at(layer_id as int, token_pos as int),
                half + base == before.value_at(layer_id as int, token_pos as int),
                base + vector_len <= half,
                half + base + vector_len <= before.storage.len(),
                before.storage.len() <= usize::MAX,
                self@.storage == overlay(
                    overlay(before.storage, base as int, key@.take(i as int)),
                    half + base,
                    value@.take(i as int),
                ),
                self@.num_layers == before.num_layers,
                self@.max_tokens == before.max_tokens,
                self@.num_kv_heads == before.num_kv_heads,
                self@.head_dim == before.head_dim,
                self@.cursor == before.cursor,
            decreases vector_len - i,
        {
            self.storage[base + i] = key[i];
            self.storage[half + base + i] = value[i];
            proof {
                assert(self@.storage =~= overlay(
                    overlay(before.storage, base as int, key@.take(i + 1)),
                    half + base,
                    value@.take(i + 1),
                ));
            }
            i += 1;
        }
        if self.cursor < token_pos + 1 {
            self.cursor = token_pos + 1;
        }
        Ok(())
    }

    /// Writes `latent` to the front of the key of a token. The rest of the key
    /// and the value stay as they are.
    pub fn write_latent(&mut self, layer_id: usize, token_pos: usize, latent: &[T]) -> (result:
        Result<(), ComputeError>)
        requires
            old(self)@.wf(),
            latent@.len() <= old(self)@.vector_len(),
        ensures
            final(self)@.wf(),
            match old(self)@.slot_error(layer_id as int, token_pos as int) {
                Some(error) => result == Err::<(), ComputeError>(error) && final(self)@ == old(
                    self,
                )@,
                None => result is Ok && final(self)@ == old(self)@.with_latent(
                    layer_id as int,
                    token_pos as int,
                    latent@,
                ),
            },
    {
        let vector_len: usize = match self.num_kv_heads.checked_mul(self.head_dim) {
            Some(len) => len,
            None => return Err(ComputeError::InvalidShape("KV vector size overflow")),
        };
        if layer_id >= self.num_layers || token_pos >= self.max_tokens {
            return Err(ComputeError::InvalidShape("KV cache index out of range"));
        }
        proof {
            assert(self.storage@.len() == self.storage.len());
            lemma_slot_fits(old(self)@, layer_id as int, token_pos as int);
        }
        let base: usize = self.slot_offset(layer_id, token_pos, vector_len);
        let ghost before = self@;
        let mut i: usize = 0;
        while i < latent.len()
            invariant
                i <= latent@.len() <= vector_len,
                base + vector_len <= before.storage.len(),
                before.storage.len() <= usize::MAX,
                self@ == (KvView {
                    storage: overlay(before.storage, base as int, latent@.take(i as int)),
                    ..before
                }),
            decreases latent.len() - i,
        {
            self.storage[base + i] = latent[i];
            proof {
                assert(self@.storage =~= overlay(
                    before.storage,
                    base as int,
                    latent@.take(i + 1),
                ));
            }
            i += 1;
        }
        if self.cursor < token_pos + 1 {
            self.cursor = token_pos + 1;
        }
        proof {
            assert(latent@.take(latent@.len() as int) =~= latent@);
            assert(self@.storage =~= before.with_latent(
                layer_id as int,
                token_pos as int,
                latent@,
            ).storage);
        }
        Ok(())
    }

    /// Why a slot cannot be had, if it cannot.
    pub fn check_slot(&self, layer_id: usize, token_pos: usize) -> (error: Option<ComputeError>)
        ensures
            error == self@.slot_error(layer_id as int, token_pos as int),
    {
        match self.num_kv_heads.checked_mul(self.head_dim) {
            Some(_) => {},
            None => return Some(ComputeError::InvalidShape("KV vector size overflow")),
        }
        if layer_id >= self.num_layers || token_pos >= self.max_tokens {
            return Some(ComputeError::InvalidShape("KV cache index out of range"));
        }
        None
    }

    /// Number of heads, and length of a head, of each slot.
    pub fn head_layout(&self) -> (layout: (usize, usize))
        ensures
            layout.0 == self@.num_kv_heads,
            layout.1 == self@.head_dim,
    {
        (self.num_kv_heads, self.head_dim)
    }

    /// Number of tokens of each layer that the cache has room for.
    pub fn capacity(&self) -> (tokens: usize)
        ensures
            tokens == self@.max_tokens,
    {
        self.max_tokens
    }

    /// A key, and a value, is as long as the heads together.
    pub proof fn lemma_key_len(&self, layer_id: int, token_pos: int)
        requires
            self@.wf(),
            self@.has_slot(layer_id, token_pos),
        ensures
            self@.key(layer_id, token_pos).len() == self@.vector_len(),
            self@.value(layer_id, token_pos).len() == self@.vector_len(),
    {
        assert(self.storage@.len() == self.storage.len());
        lemma_slot_fits(self@, layer_id, token_pos);
    }

    /// Number of layers.
    pub fn layer_count(&self) -> (layers: usize)
        ensures
            layers == self@.num_layers,
    {
        self.num_layers
    }

    /// The position behind the last token that was written.
    pub fn written_to(&self) -> (cursor: usize)
        ensures
            cursor == self@.cursor,
    {
        self.cursor
    }

    /// The whole storage, keys before values. It is meaningful only to a cache
    /// of the same shape.
    pub fn raw_storage(&self) -> (raw: &[T])
        ensures
            raw@ == self@.storage,
    {
        &*self.storage
    }

    /// Puts back a whole storage that was saved from a cache of the same shape.
    pub fn restore_raw(&mut self, data: &[T]) -> (result: Result<(), ComputeError>)
        ensures
            if data@.len() == old(self)@.storage.len() {
                result is Ok && final(self)@ == (KvView { storage: data@, ..old(self)@ })
            } else {
                result == Err::<(), ComputeError>(
                    ComputeError::InvalidShape("KV restore shape mismatch"),
                ) && final(self)@ == old(self)@
            },
    {
        let len: usize = self.storage.len();
        if data.len() != len {
            return Err(ComputeError::InvalidShape("KV restore shape mismatch"));
        }
        let ghost before = self@;
        let mut i: usize = 0;
        while i < len
            invariant
                i <= len,
                len == data@.len(),
                self@.storage.len() == len,
                forall|j: int| 0 <= j < i ==> self@.storage[j] == data@[j],
                self@ == (KvView { storage: self@.storage, ..before }),
            decreases len - i,
        {
            self.storage[i] = data[i];
            i += 1;
        }
        proof {
            assert(self@.storage =~= data@);
        }
        Ok(())
    }

    /// The key of a token.
    pub fn key_slice(&self, layer_id: usize, token_pos: usize) -> (result: Result<
        &[T],
        ComputeError,
    >)
        requires
            self@.wf(),
        ensures
            match self@.slot_error(layer_id as int, token_pos as int) {
                Some(error) => result == Err::<&[T], ComputeError>(error),
                None => result matches Ok(key) && key@ == self@.key(
                    layer_id as int,
                    token_pos as int,
                ),
            },
    {
        self.slot_slice(layer_id, token_pos, false)
    }

    /// The value of a token.
    pub fn value_slice(&self, layer_id: usize, token_pos: usize) -> (result: Result<
        &[T],
        ComputeError,
    >)
        requires
            self@.wf(),
        ensures
            match self@.slot_error(layer_id as int, token_pos as int) {
                Some(error) => result == Err::<&[T], ComputeError>(error),
                None => result matches Ok(value) && value@ == self@.value(
                    layer_id as int,
                    token_pos as int,
                ),
            },
    {
        self.slot_slice(layer_id, token_pos, true)
    }

    /// The slots of a token's key and value, to be written in place.
    pub fn key_value_slices_mut(&mut self, layer_id: usize, token_pos: usize) -> (result: Result<
        (&mut [T], &mut [T]),
        ComputeError,
    >)
        requires
            old(self)@.wf(),
        ensures
            match old(self)@.slot_error(layer_id as int, token_pos as int) {
                Some(error) => result == Err::<(&mut [T], &mut [T]), ComputeError>(error)
                    && final(self)@ == old(self)@,
                None => {
                    &&& result matches Ok(slots)
                    &&& slots.0@ == old(self)@.key(layer_id as int, token_pos as int)
                    &&& slots.1@ == old(self)@.value(layer_id as int, token_pos as int)
                    &&& slots.0@.len() == old(self)@.vector_len()
                    &&& slots.1@.len() == old(self)@.vector_len()
                    &&& (final(slots.0)@.len() == old(self)@.vector_len() && final(slots.1)@.len()
                        == old(self)@.vector_len()) ==> final(self)@ == old(self)@.with_token(
                        layer_id as int,
                        token_pos as int,
                        final(slots.0)@,
                        final(slots.1)@,
                    )
                },
            },
    {
        let vector_len: usize = match self.num_kv_heads.checked_mul(self.head_dim) {
            Some(len) => len,
            None => return Err(ComputeError::InvalidShape("KV vector size overflow")),
        };
        if layer_id >= self.num_layers || token_pos >= self.max_tokens {
            return Err(ComputeError::InvalidShape("KV cache index out of range"));
        }
        let half: usize = self.storage.len() / 2;
        proof {
            lemma_slot_fits(old(self)@, layer_id as int, token_pos as int);
        }
        let base: usize = self.slot_offset(layer_id, token_pos, vector_len);
        if self.cursor < token_pos + 1 {
            self.cursor = token_pos + 1;
        }
        let (keys, values) = self.storage.split_at_mut(half);
        let (_before, keys_from) = keys.split_at_mut(base);
        let (key, _after) = keys_from.split_at_mut(vector_len);
        let (_before, values_from) = values.split_at_mut(base);
        let (value, _after) = values_from.split_at_mut(vector_len);
        proof {
            assert(key@ =~= old(self)@.key(layer_id as int, token_pos as int));
            assert(value@ =~= old(self)@.value(layer_id as int, token_pos as int));
            assert((final(key)@.len() == vector_len && final(value)@.len() == vector_len) ==> (
            *after_borrow(self))@.storage =~= old(self)@.with_token(
                layer_id as int,
                token_pos as int,
                final(key)@,
                final(value)@,
            ).storage);
        }
        Ok((key, value))
    }

    fn slot_slice(&self, layer_id: usize, token_pos: usize, values: bool) -> (result: Result<
        &[T],
        ComputeError,
    >)
        requires
            self@.wf(),
        ensures
            match self@.slot_error(layer_id as int, token_pos as int) {
                Some(error) => result == Err::<&[T], ComputeError>(error),
                None => result matches Ok(part) && part@ == if values {
                    self@.value(layer_id as int, token_pos as int)
                } else {
                    self@.key(layer_id as int, token_pos as int)
                },
            },
    {
        let vector_len: usize = match self.num_kv_heads.checked_mul(self.head_dim) {
            Some(len) => len,
            None => return Err(ComputeError::InvalidShape("KV vector size overflow")),
        };
        if layer_id >= self.num_layers || token_pos >= self.max_tokens {
            return Err(ComputeError::InvalidShape("KV cache index out of range"));
        }
        let storage: &[T] = &*self.storage;
        let half: usize = storage.len() / 2;
        proof {
            lemma_slot_fits(self@, layer_id as int, token_pos as int);
        }
        let base: usize = self.slot_offset(layer_id, token_pos, vector_len);
        let start: usize = if values {
            half + base
        } else {
            base
        };
        Ok(&storage[start..start + vector_len])
    }

    fn slot_offset(&self, layer_id: usize, token_pos: usize, vector_len: usize) -> (offset: usize)
        requires
            self@.wf(),
            self@.has_slot(layer_id as int, token_pos as int),
            vector_len == self@.vector_len(),
            self@.storage.len() <= usize::MAX,
        ensures
            offset == self@.key_at(layer_id as int, token_pos as int),
    {
        let ghost kv = self@;
        proof {
            lemma_slot_fits(kv, layer_id as int, token_pos as int);
        }
        proof {
            assert(0 <= layer_id * kv.max_tokens) by (nonlinear_arith);
        }
        (layer_id * self.max_tokens + token_pos) * vector_len
    }
}

/// Where everything lies: keys fill the first half of the storage and values the
/// second, layer after layer and in each layer token after token, every vector
/// with all its heads. So no two vectors share an element.
pub proof fn law_vectors_lie_in_order<T>(
    kv: KvView<T>,
    layer_id: int,
    token_pos: int,
    head: int,
    dim: int,
)
    requires
        kv.wf(),
        kv.storage.len() <= usize::MAX,
        0 <= layer_id < kv.num_layers,
        0 <= token_pos < kv.max_tokens,
        0 <= head < kv.num_kv_heads,
        0 <= dim < kv.head_dim,
    ensures
        kv.key(layer_id, token_pos).len() == kv.num_kv_heads * kv.head_dim,
        kv.value(layer_id, token_pos).len() == kv.num_kv_heads * kv.head_dim,
        kv.key(layer_id, token_pos)[head * kv.head_dim + dim] == kv.storage[((layer_id
            * kv.max_tokens + token_pos) * kv.num_kv_heads + head) * kv.head_dim + dim],
        kv.value(layer_id, token_pos)[head * kv.head_dim + dim] == kv.storage[kv.storage.len() / 2
            + ((layer_id * kv.max_tokens + token_pos) * kv.num_kv_heads + head) * kv.head_dim
            + dim],
{
    lemma_slot_fits(kv, layer_id, token_pos);
    let slot = layer_id * kv.max_tokens + token_pos;
    let heads = kv.num_kv_heads as int;
    let width = kv.head_dim as int;
    assert((slot * heads + head) * width == slot * (heads * width) + head * width)
        by (nonlinear_arith);
    assert(0 <= head * width && head * width + width <= heads * width) by (nonlinear_arith)
        requires
            0 <= head,
            head + 1 <= heads,
            0 <= width,
    ;
}

/// A latent is found at the front of the key that it was written to; the rest of
/// that key, its value and every other token stay as they were.
pub proof fn law_latent_is_found<T>(
    kv: KvView<T>,
    layer_id: int,
    token_pos: int,
    latent: Seq<T>,
    other_layer: int,
    other_pos: int,
)
    requires
        kv.wf(),
        kv.storage.len() <= usize::MAX,
        kv.has_slot(layer_id, token_pos),
        kv.has_slot(other_layer, other_pos),
        latent.len() <= kv.vector_len(),
    ensures
        ({
            let after = kv.with_latent(layer_id, token_pos, latent);
            let n = latent.len() as int;
            &&& after.wf()
            &&& after.key(layer_id, token_pos).take(n) == latent
            &&& after.key(layer_id, token_pos).skip(n) == kv.key(layer_id, token_pos).skip(n)
            &&& after.value(layer_id, token_pos) == kv.value(layer_id, token_pos)
            &&& other_layer != layer_id || other_pos != token_pos ==> after.key(
                other_layer,
                other_pos,
            ) == kv.key(other_layer, other_pos) && after.value(other_layer, other_pos) == kv.value(
                other_layer,
                other_pos,
            )
            &&& after.cursor > token_pos && after.cursor >= kv.cursor
        }),
{
    lemma_slot_fits(kv, layer_id, token_pos);
    let key = overlay(kv.key(layer_id, token_pos), 0, latent);
    let value = kv.value(layer_id, token_pos);
    law_read_gives_back_write(kv, layer_id, token_pos, key, value);
    if other_layer != layer_id || other_pos != token_pos {
        law_write_keeps_other_tokens(
            kv,
            layer_id,
            token_pos,
            key,
            value,
            other_layer,
            other_pos,
        );
    }
    let n = latent.len() as int;
    assert(key.take(n) =~= latent);
    assert(key.skip(n) =~= kv.key(layer_id, token_pos).skip(n));
}

/// A cache holds a key and a value for each layer, position and head, and it is
/// written up to the furthest position of all writes.
pub proof fn law_caches_hold_keys_and_values<T>(
    kv: KvView<T>,
    layer_id: int,
    token_pos: int,
    key: Seq<T>,
    value: Seq<T>,
)
    requires
        0 <= token_pos < usize::MAX,
    ensures
        kv_required(
            kv.num_layers,
            kv.max_tokens,
            kv.num_kv_heads,
            kv.head_dim,
        ) matches Ok(required) ==> required == 2 * (kv.num_layers * kv.max_tokens * kv.num_kv_heads
            * kv.head_dim),
        kv.with_token(layer_id, token_pos, key, value).cursor == if kv.cursor > token_pos {
            kv.cursor as int
        } else {
            token_pos + 1
        },
        kv.append_error(layer_id, token_pos, key.len() as int, value.len() as int) is None <==> (
        kv.num_kv_heads * kv.head_dim <= usize::MAX && kv.num_kv_heads * kv.head_dim <= key.len()
            && kv.num_kv_heads * kv.head_dim <= value.len() && 0 <= layer_id < kv.num_layers
            && token_pos < kv.max_tokens),
{
}

/// What `append` writes: value `dim` of head `head` of the key stands at the place
/// of the layer, position and head in the first half of the storage, that of the
/// value at the same place in the second half.
pub proof fn law_append<T: Copy>(
    cache: &mut KVCache<'_, T>,
    layer_id: usize,
    token_pos: usize,
    key: &[T],
    value: &[T],
    head: int,
    dim: int,
)
    requires
        cache@.wf(),
        cache@.storage.len() <= usize::MAX,
        0 <= head < cache@.num_kv_heads,
        0 <= dim < cache@.head_dim,
        call_ensures(
            KVCache::<T>::append,
            (cache, layer_id, token_pos, key, value),
            Ok::<(), ComputeError>(()),
        ),
    ensures
        ({
            let kv = old(cache)@;
            let after = final(cache)@;
            let at = ((layer_id * kv.max_tokens + token_pos) * kv.num_kv_heads + head)
                * kv.head_dim + dim;
            &&& layer_id < kv.num_layers && token_pos < kv.max_tokens
            &&& head * kv.head_dim + dim < key@.len()
            &&& after.storage.len() == kv.storage.len()
            &&& after.storage[at] == key@[head * kv.head_dim + dim]
            &&& after.storage[kv.storage.len() / 2 + at] == value@[head * kv.head_dim + dim]
            &&& after.cursor > token_pos
        }),
{
    let kv = old(cache)@;
    let n = kv.vector_len();
    let part = key@.take(n);
    let rest = value@.take(n);
    let after = kv.with_token(layer_id as int, token_pos as int, part, rest);
    assert(0 <= n) by (nonlinear_arith)
        requires
            n == kv.num_kv_heads * kv.head_dim,
    ;
    assert(0 <= head * kv.head_dim + dim < n) by (nonlinear_arith)
        requires
            n == kv.num_kv_heads * kv.head_dim,
            0 <= head < kv.num_kv_heads,
            0 <= dim < kv.head_dim,
    ;
    law_read_gives_back_write(kv, layer_id as int, token_pos as int, part, rest);
    law_vectors_lie_in_order(after, layer_id as int, token_pos as int, head, dim);
}

/// What `key_slice` and `value_slice` return: all heads of the position, the key
/// from the first half of the storage and the value from the second.
pub proof fn law_slices<T: Copy>(
    cache: &KVCache<'_, T>,
    layer_id: usize,
    token_pos: usize,
    key: &[T],
    value: &[T],
    head: int,
    dim: int,
)
    requires
        cache@.wf(),
        cache@.storage.len() <= usize::MAX,
        0 <= head < cache@.num_kv_heads,
        0 <= dim < cache@.head_dim,
        call_ensures(
            KVCache::<T>::key_slice,
            (cache, layer_id, token_pos),
            Ok::<&[T], ComputeError>(key),
        ),
        call_ensures(
            KVCache::<T>::value_slice,
            (cache, layer_id, token_pos),
            Ok::<&[T], ComputeError>(value),
        ),
    ensures
        ({
            let kv = cache@;
            let at = ((layer_id * kv.max_tokens + token_pos) * kv.num_kv_heads + head)
                * kv.head_dim + dim;
            &&& key@.len() == kv.num_kv_heads * kv.head_dim
            &&& value@.len() == kv.num_kv_heads * kv.head_dim
            &&& key@[head * kv.head_dim + dim] == kv.storage[at]
            &&& value@[head * kv.head_dim + dim] == kv.storage[kv.storage.len() / 2 + at]
        }),
{
    law_vectors_lie_in_order(cache@, layer_id as int, token_pos as int, head, dim);
}

/// What `write_latent` writes: the latent at the start of the key of its position,
/// and nothing else of any position.
pub proof fn law_write_latent<T: Copy>(
    cache: &mut KVCache<'_, T>,
    layer_id: usize,
    token_pos: usize,
    latent: &[T],
    other_layer: int,
    other_pos: int,
)
    requires
        cache@.wf(),
        cache@.storage.len() <= usize::MAX,
        latent@.len() <= cache@.vector_len(),
        cache@.has_slot(other_layer, other_pos),
        call_ensures(
            KVCache::<T>::write_latent,
            (cache, layer_id, token_pos, latent),
            Ok::<(), ComputeError>(()),
        ),
    ensures
        ({
            let before = old(cache)@;
            let after = final(cache)@;
            let n = latent@.len() as int;
            &&& after.key(layer_id as int, token_pos as int).take(n) == latent@
            &&& after.key(layer_id as int, token_pos as int).skip(n) == before.key(
                layer_id as int,
                token_pos as int,
            ).skip(n)
            &&& other_layer != layer_id || other_pos != token_pos ==> after.key(
                other_layer,
                other_pos,
            ) == before.key(other_layer, other_pos)
            &&& after.value(other_layer, other_pos) == before.value(other_layer, other_pos)
        }),
{
    law_latent_is_found(
        old(cache)@,
        layer_id as int,
        token_pos as int,
        latent@,
        other_layer,
        other_pos,
    );
}

/// A position has a slot exactly where the cache has its layer and room for it; what
/// `check_slot` says of it is what reads and writes of it go by.
pub proof fn law_slots_are_in_range<T: Copy>(
    cache: &KVCache<'_, T>,
    layer_id: usize,
    token_pos: usize,
    error: Option<ComputeError>,
)
    requires
        call_ensures(KVCache::<T>::check_slot, (cache, layer_id, token_pos), error),
    ensures
        error is None <==> layer_id < cache@.num_layers && token_pos < cache@.max_tokens
            && cache@.num_kv_heads * cache@.head_dim <= usize::MAX,
{
}

} // verus!
