//! Incremental compressor of sparse attention. Positions are fed one by one;
//! every `ratio` positions the pending projections are pooled into one
//! compressed row. Speculative positions can be taken back exactly.

use crate::compute::counts::count_rows;
use crate::compute::error::ComputeError;
use crate::compute::gemv::{
    plan_bf16_tensorwise, plan_fp8_tensorwise, plan_gemv_tensorwise, GemvPlan,
};
use crate::compute::lookup::{fp8_scale_for_weight, tensor_by_name_suffix};
use crate::compute::quant_block::{QuantBlockLayout, QuantTensorLayout};
use crate::compute::values::read_f32_tensor_values;
use crate::deepseek_v4::{QUANT_DEEPSEEK_BF16_AUX, QUANT_DEEPSEEK_FP8_E4M3};
use vstd::prelude::*;

verus! {

use crate::bytes::ends_with_bytes;
use crate::compute::error::{agrees, found_agrees};
use crate::compute::gemv::{bf16_whole, fp8_whole, gemv_plain, Fp8RowsView, GemvView};
use crate::compute::lookup::{by_suffix, fp8_scale_of, name_text};
use crate::compute::quant_block::{BlockView, TensorView};
use crate::compute::values::f32_values;
use vstd::string::StringSliceAdditionalSpecFns;

/// Positions per compressed row, by layer; 0 where a layer does not compress.
pub const DEEPSEEK_V4_COMPRESS_RATIOS: [u32; 44] = [
    0, 0, 4, 128, 4, 128, 4, 128, 4, 128, 4, 128, 4, 128, 4, 128, 4, 128, 4, 128, 4, 128, 4, 128,
    4, 128, 4, 128, 4, 128, 4, 128, 4, 128, 4, 128, 4, 128, 4, 128, 4, 128, 4, 0,
];

/// Compressed rows that a position sees at most.
pub const MAX_COMPRESSED_ROWS: usize = 512;

/// Positions per compressed row of a layer; 0 for layers past the table.
pub open spec fn ratio_of(physical_layer: int) -> usize {
    if 0 <= physical_layer < 44 {
        DEEPSEEK_V4_COMPRESS_RATIOS@[physical_layer] as usize
    } else {
        0
    }
}

/// Rows of projection per head dimension: two where blocks overlap.
pub open spec fn coff_of(ratio: int) -> usize {
    if ratio == 4 {
        2
    } else {
        1
    }
}

/// Positions per compressed row of a layer.
pub fn compress_ratio(physical_layer: usize) -> (ratio: usize)
    ensures
        ratio == ratio_of(physical_layer as int),
{
    if physical_layer < 44 {
        DEEPSEEK_V4_COMPRESS_RATIOS[physical_layer] as usize
    } else {
        0
    }
}

/// Rows of projection per head dimension.
pub fn overlap_factor(ratio: usize) -> (coff: usize)
    ensures
        coff == coff_of(ratio as int),
{
    if ratio == 4 {
        2
    } else {
        1
    }
}

/// A layer's compressor before a speculative position was fed.
pub struct CompressorSnapshot<T> {
    pub pos: usize,
    pub pending_kv: Vec<T>,
    pub pending_score: Vec<T>,
    pub pending_len: usize,
    pub prev_first_half: Option<(Vec<T>, Vec<T>)>,
    pub compressed_len: usize,
    pub last_fed_pos: Option<usize>,
}

/// One layer's compressor: the projections of the current block, the first
/// half of the block before it, and the compressed rows.
pub struct CompressorLayerState<T> {
    pub coff: usize,
    pub pending_kv: Vec<T>,
    pub pending_score: Vec<T>,
    pub pending_len: usize,
    pub prev_first_half: Option<(Vec<T>, Vec<T>)>,
    pub compressed: Vec<T>,
    pub missing_logged: bool,
    pub last_fed_pos: Option<usize>,
    pub spec_undo: Vec<CompressorSnapshot<T>>,
}

/// What a snapshot holds.
#[verifier::ext_equal]
pub struct SnapshotView<T> {
    pub pos: usize,
    pub pending_kv: Seq<T>,
    pub pending_score: Seq<T>,
    pub pending_len: usize,
    pub prev: Option<(Seq<T>, Seq<T>)>,
    pub compressed_len: usize,
    pub last_fed_pos: Option<usize>,
}

/// What a layer's compressor holds.
#[verifier::ext_equal]
pub struct LayerView<T> {
    pub coff: usize,
    pub pending_kv: Seq<T>,
    pub pending_score: Seq<T>,
    pub pending_len: usize,
    pub prev: Option<(Seq<T>, Seq<T>)>,
    pub compressed: Seq<T>,
    pub missing_logged: bool,
    pub last_fed_pos: Option<usize>,
    pub undo: Seq<SnapshotView<T>>,
}

/// The contents of a pair of halves.
pub open spec fn halves<T>(pair: Option<(Vec<T>, Vec<T>)>) -> Option<(Seq<T>, Seq<T>)> {
    match pair {
        Some(p) => Some((p.0@, p.1@)),
        None => None,
    }
}

impl<T> View for CompressorSnapshot<T> {
    type V = SnapshotView<T>;

    open spec fn view(&self) -> SnapshotView<T> {
        SnapshotView {
            pos: self.pos,
            pending_kv: self.pending_kv@,
            pending_score: self.pending_score@,
            pending_len: self.pending_len,
            prev: halves(self.prev_first_half),
            compressed_len: self.compressed_len,
            last_fed_pos: self.last_fed_pos,
        }
    }
}

impl<T> View for CompressorLayerState<T> {
    type V = LayerView<T>;

    open spec fn view(&self) -> LayerView<T> {
        LayerView {
            coff: self.coff,
            pending_kv: self.pending_kv@,
            pending_score: self.pending_score@,
            pending_len: self.pending_len,
            prev: halves(self.prev_first_half),
            compressed: self.compressed@,
            missing_logged: self.missing_logged,
            last_fed_pos: self.last_fed_pos,
            undo: self.spec_undo@.map_values(|s: CompressorSnapshot<T>| s@),
        }
    }
}

/// Row `pos` of `rows` rows of `width` values: the value at `dim`.
pub open spec fn column<T>(rows: Seq<T>, count: int, width: int, dim: int) -> Seq<T> {
    Seq::new(count as nat, |pos: int| rows[pos * width + dim])
}

/// The first `keep` values of each of `count` rows of `width` values.
pub open spec fn leading<T>(rows: Seq<T>, count: int, width: int, keep: int) -> Seq<T> {
    Seq::new((count * keep) as nat, |i: int| rows[(i / keep) * width + i % keep])
}

impl<T> LayerView<T> {
    /// A compressor that was fed nothing.
    pub open spec fn fresh(coff: usize) -> LayerView<T> {
        LayerView {
            coff,
            pending_kv: seq![],
            pending_score: seq![],
            pending_len: 0,
            prev: None,
            compressed: seq![],
            missing_logged: false,
            last_fed_pos: None,
            undo: seq![],
        }
    }

    /// The compressor at the start of a new sequence.
    pub open spec fn restarted(self) -> LayerView<T> {
        LayerView { missing_logged: self.missing_logged, ..LayerView::fresh(self.coff) }
    }

    /// The position was fed before.
    pub open spec fn has_fed(self, token_pos: int) -> bool {
        match self.last_fed_pos {
            Some(fed) => token_pos <= fed,
            None => false,
        }
    }

    /// Number of compressed rows that a position sees.
    pub open spec fn visible_count(self, ratio: int, head_dim: int, token_pos: int) -> int {
        let blocks = self.compressed.len() as int / head_dim;
        let complete = (token_pos + 1) / ratio;
        let available = if blocks < complete {
            blocks
        } else {
            complete
        };
        if MAX_COMPRESSED_ROWS < available {
            MAX_COMPRESSED_ROWS as int
        } else {
            available
        }
    }

    /// The compressed rows that a position sees.
    pub open spec fn visible(self, ratio: int, head_dim: int, token_pos: int) -> Seq<T> {
        self.compressed.take(self.visible_count(ratio, head_dim, token_pos) * head_dim)
    }

    /// What to remember of the compressor before it is fed `token_pos`.
    pub open spec fn snapshot(self, token_pos: usize) -> SnapshotView<T> {
        SnapshotView {
            pos: token_pos,
            pending_kv: self.pending_kv,
            pending_score: self.pending_score,
            pending_len: self.pending_len,
            prev: self.prev,
            compressed_len: self.compressed.len() as usize,
            last_fed_pos: self.last_fed_pos,
        }
    }

    /// Feeding `token_pos` must be remembered.
    pub open spec fn remembers(self, spec_min: Option<usize>, token_pos: usize) -> bool {
        spec_min is Some && token_pos >= spec_min->0 && (self.undo.len() == 0
            || self.undo.last().pos != token_pos)
    }

    /// The compressor after the projections of `token_pos` were fed.
    pub open spec fn fed(
        self,
        spec_min: Option<usize>,
        token_pos: usize,
        kv_row: Seq<T>,
        score_row: Seq<T>,
    ) -> LayerView<T> {
        LayerView {
            pending_kv: self.pending_kv + kv_row,
            pending_score: self.pending_score + score_row,
            pending_len: (self.pending_len + 1) as usize,
            last_fed_pos: Some(token_pos),
            undo: if self.remembers(spec_min, token_pos) {
                self.undo.push(self.snapshot(token_pos))
            } else {
                self.undo
            },
            ..self
        }
    }

    /// The values, or scores, that dimension `dim` of the next compressed row
    /// is pooled from: the block before, where blocks overlap, then this one.
    pub open spec fn pool(
        self,
        pending: Seq<T>,
        prev: Option<Seq<T>>,
        ratio: int,
        head_dim: int,
        dim: int,
    ) -> Seq<T> {
        if coff_of(ratio) == 2 {
            (match prev {
                Some(first_half) => column(first_half, ratio, head_dim, dim),
                None => seq![],
            }) + column(pending, ratio, 2 * head_dim, head_dim + dim)
        } else {
            column(pending, ratio, head_dim, dim)
        }
    }

    /// The values that dimension `dim` is pooled from.
    pub open spec fn pool_values(self, ratio: int, head_dim: int, dim: int) -> Seq<T> {
        self.pool(
            self.pending_kv,
            match self.prev {
                Some(prev) => Some(prev.0),
                None => None,
            },
            ratio,
            head_dim,
            dim,
        )
    }

    /// The scores that dimension `dim` is pooled with.
    pub open spec fn pool_scores(self, ratio: int, head_dim: int, dim: int) -> Seq<T> {
        self.pool(
            self.pending_score,
            match self.prev {
                Some(prev) => Some(prev.1),
                None => None,
            },
            ratio,
            head_dim,
            dim,
        )
    }

    /// The compressor after a full block became the compressed row `row`.
    pub open spec fn flushed(self, ratio: int, head_dim: int, row: Seq<T>) -> LayerView<T> {
        LayerView {
            compressed: self.compressed + row,
            prev: if coff_of(ratio) == 2 {
                Some(
                    (
                        leading(self.pending_kv, ratio, 2 * head_dim, head_dim),
                        leading(self.pending_score, ratio, 2 * head_dim, head_dim),
                    ),
                )
            } else {
                self.prev
            },
            pending_kv: seq![],
            pending_score: seq![],
            pending_len: 0,
            ..self
        }
    }

    /// Number of snapshots below `n` from the bottom that a rollback to
    /// `from_pos` keeps: all below the topmost run at `from_pos` or later.
    pub open spec fn kept_undo(self, from_pos: int, n: int) -> int
        decreases n,
    {
        if n <= 0 {
            0
        } else if self.undo[n - 1].pos >= from_pos {
            self.kept_undo(from_pos, n - 1)
        } else {
            n
        }
    }

    /// The compressor after every position from `from_pos` on was taken back.
    pub open spec fn rolled_back(self, from_pos: int) -> LayerView<T> {
        let kept = self.kept_undo(from_pos, self.undo.len() as int);
        if kept == self.undo.len() {
            self
        } else {
            let oldest = self.undo[kept];
            LayerView {
                pending_kv: oldest.pending_kv,
                pending_score: oldest.pending_score,
                pending_len: oldest.pending_len,
                prev: oldest.prev,
                compressed: if oldest.compressed_len < self.compressed.len() {
                    self.compressed.take(oldest.compressed_len as int)
                } else {
                    self.compressed
                },
                last_fed_pos: oldest.last_fed_pos,
                undo: self.undo.take(kept),
                ..self
            }
        }
    }

    /// The compressor after its speculative positions were accepted.
    pub open spec fn committed(self) -> LayerView<T> {
        LayerView { undo: seq![], ..self }
    }

    /// The buffers are as long as the counts say.
    pub open spec fn wf(self, ratio: int, head_dim: int) -> bool {
        &&& ratio > 0
        &&& head_dim > 0
        &&& self.pending_len <= ratio
        &&& self.pending_kv.len() == self.pending_len * (coff_of(ratio) * head_dim)
        &&& self.pending_score.len() == self.pending_len * (coff_of(ratio) * head_dim)
        &&& self.prev matches Some(prev) ==> prev.0.len() == ratio * head_dim && prev.1.len()
            == ratio * head_dim
        &&& self.compressed.len() % (head_dim as nat) == 0
    }
}

/// What one position brings: its projections, and the row that its block is
/// compressed to if the block is then full.
pub struct Feed<T> {
    pub pos: usize,
    pub kv_row: Seq<T>,
    pub score_row: Seq<T>,
    pub row: Seq<T>,
}

impl<T> LayerView<T> {
    /// The compressor after one position, flushed if its block is full.
    pub open spec fn stepped(
        self,
        spec_min: Option<usize>,
        ratio: int,
        head_dim: int,
        feed: Feed<T>,
    ) -> LayerView<T> {
        let next = self.fed(spec_min, feed.pos, feed.kv_row, feed.score_row);
        if next.pending_len == ratio {
            next.flushed(ratio, head_dim, feed.row)
        } else {
            next
        }
    }

    /// The compressor after the first `n` of `feeds`.
    pub open spec fn run(
        self,
        spec_min: Option<usize>,
        ratio: int,
        head_dim: int,
        feeds: Seq<Feed<T>>,
        n: int,
    ) -> LayerView<T>
        decreases n,
    {
        if n <= 0 {
            self
        } else {
            self.run(spec_min, ratio, head_dim, feeds, n - 1).stepped(
                spec_min,
                ratio,
                head_dim,
                feeds[n - 1],
            )
        }
    }
}

/// Positions rise, each of them speculative and after what is remembered.
pub open spec fn rising<T>(s: LayerView<T>, min_pos: usize, feeds: Seq<Feed<T>>) -> bool {
    &&& forall|i: int| 0 <= i < feeds.len() ==> #[trigger] feeds[i].pos >= min_pos
    &&& forall|i: int, j: int| 0 <= i < j < feeds.len() ==> #[trigger] feeds[i].pos < #[trigger] feeds[j].pos
    &&& forall|i: int, j: int|
        0 <= i < s.undo.len() && 0 <= j < feeds.len() ==> #[trigger] s.undo[i].pos
            < #[trigger] feeds[j].pos
}

proof fn lemma_run<T>(
    s: LayerView<T>,
    min_pos: usize,
    ratio: int,
    head_dim: int,
    feeds: Seq<Feed<T>>,
    k: int,
    n: int,
)
    requires
        rising(s, min_pos, feeds),
        0 <= k <= n <= feeds.len(),
    ensures
        ({
            let spec = Some(min_pos);
            let at_k = s.run(spec, ratio, head_dim, feeds, k);
            let at_n = s.run(spec, ratio, head_dim, feeds, n);
            &&& at_n.coff == s.coff
            &&& at_n.missing_logged == s.missing_logged
            &&& at_n.undo.len() == s.undo.len() + n
            &&& at_n.undo.take((s.undo.len() + k) as int) == at_k.undo
            &&& k < n ==> at_n.undo[s.undo.len() + k] == at_k.snapshot(feeds[k].pos)
            &&& at_k.compressed.len() <= at_n.compressed.len()
            &&& at_n.compressed.take(at_k.compressed.len() as int) == at_k.compressed
            &&& n > 0 ==> at_n.undo.last().pos == feeds[n - 1].pos
        }),
    decreases n,
{
    let spec = Some(min_pos);
    let at_k = s.run(spec, ratio, head_dim, feeds, k);
    let at_n = s.run(spec, ratio, head_dim, feeds, n);
    if k < n {
        lemma_run(s, min_pos, ratio, head_dim, feeds, k, n - 1);
        let before = s.run(spec, ratio, head_dim, feeds, n - 1);
        assert(feeds[n - 1].pos >= min_pos);
        if n - 1 > 0 {
            assert(before.undo.last().pos == feeds[n - 2].pos);
        } else {
            assert(before == s);
            if s.undo.len() > 0 {
                assert(s.undo[s.undo.len() - 1].pos < feeds[0].pos);
            }
        }
        assert(before.remembers(spec, feeds[n - 1].pos));
        assert(at_n.undo == before.undo.push(before.snapshot(feeds[n - 1].pos)));
        assert(at_n.undo.take((s.undo.len() + k) as int) =~= before.undo.take(
            (s.undo.len() + k) as int,
        ));
        assert(at_n.compressed.take(at_k.compressed.len() as int) =~= before.compressed.take(
            at_k.compressed.len() as int,
        ));
    } else {
        assert(at_n.undo.take(at_n.undo.len() as int) =~= at_n.undo) ;
        assert(at_n.compressed.take(at_n.compressed.len() as int) =~= at_n.compressed);
        if n > 0 {
            lemma_run(s, min_pos, ratio, head_dim, feeds, n - 1, n - 1);
            let before = s.run(spec, ratio, head_dim, feeds, n - 1);
            assert(feeds[n - 1].pos >= min_pos);
            if n - 1 > 0 {
                assert(before.undo.last().pos == feeds[n - 2].pos);
            } else {
                assert(before == s);
                if s.undo.len() > 0 {
                    assert(s.undo[s.undo.len() - 1].pos < feeds[0].pos);
                }
            }
            assert(before.remembers(spec, feeds[n - 1].pos));
            assert(at_n.undo == before.undo.push(before.snapshot(feeds[n - 1].pos)));
        }
    }
}

proof fn lemma_kept<T>(v: LayerView<T>, from_pos: int, kept: int, n: int)
    requires
        0 <= kept <= n <= v.undo.len(),
        forall|i: int| kept <= i < n ==> #[trigger] v.undo[i].pos >= from_pos,
        kept > 0 ==> v.undo[kept - 1].pos < from_pos,
    ensures
        v.kept_undo(from_pos, n) == kept,
    decreases n,
{
    if n > kept {
        assert(v.undo[n - 1].pos >= from_pos);
        lemma_kept(v, from_pos, kept, n - 1);
    }
}

/// Taking back speculative positions is exact: whatever was fed, and however
/// many blocks were flushed, a rollback to `from_pos` leaves the compressor
/// just as it was after the `k` positions before `from_pos`.
pub proof fn law_rollback_is_exact<T>(
    s: LayerView<T>,
    min_pos: usize,
    ratio: int,
    head_dim: int,
    feeds: Seq<Feed<T>>,
    from_pos: int,
    k: int,
)
    requires
        rising(s, min_pos, feeds),
        0 <= k <= feeds.len(),
        forall|i: int| 0 <= i < k ==> #[trigger] feeds[i].pos < from_pos,
        forall|i: int| k <= i < feeds.len() ==> #[trigger] feeds[i].pos >= from_pos,
        forall|i: int| 0 <= i < s.undo.len() ==> #[trigger] s.undo[i].pos < from_pos,
        s.run(Some(min_pos), ratio, head_dim, feeds, feeds.len() as int).compressed.len()
            <= usize::MAX,
    ensures
        s.run(Some(min_pos), ratio, head_dim, feeds, feeds.len() as int).rolled_back(from_pos)
            == s.run(Some(min_pos), ratio, head_dim, feeds, k),
{
    let spec = Some(min_pos);
    let n = feeds.len() as int;
    let base = s.undo.len() as int;
    let at_k = s.run(spec, ratio, head_dim, feeds, k);
    let at_n = s.run(spec, ratio, head_dim, feeds, n);
    lemma_run(s, min_pos, ratio, head_dim, feeds, k, n);
    assert forall|i: int| base + k <= i < base + n implies #[trigger] at_n.undo[i].pos
        >= from_pos by {
        lemma_run(s, min_pos, ratio, head_dim, feeds, i - base, n);
        assert(feeds[i - base].pos >= from_pos);
    }
    if base + k > 0 {
        if k > 0 {
            lemma_run(s, min_pos, ratio, head_dim, feeds, k - 1, n);
            assert(feeds[k - 1].pos < from_pos);
        } else {
            lemma_run(s, min_pos, ratio, head_dim, feeds, 0, n);
            assert(at_n.undo.take(base)[base - 1] == at_n.undo[base - 1]);
            assert(s.undo[base - 1].pos < from_pos);
        }
    }
    lemma_kept(at_n, from_pos, base + k, base + n);
    lemma_run(s, min_pos, ratio, head_dim, feeds, k, k);
    if k == n {
        assert(at_n.rolled_back(from_pos) == at_n);
    } else {
        assert(at_n.undo[base + k] == at_k.snapshot(feeds[k].pos));
        assert(at_n.compressed.take(at_k.compressed.len() as int) =~= at_k.compressed);
        if at_k.compressed.len() == at_n.compressed.len() {
            assert(at_n.compressed.take(at_n.compressed.len() as int) =~= at_n.compressed);
        }
        assert(at_n.rolled_back(from_pos) =~= at_k);
    }
}

/// Once the speculative positions are accepted, a rollback changes nothing.
pub proof fn law_commit_ends_speculation<T>(s: LayerView<T>, from_pos: int)
    ensures
        s.committed().rolled_back(from_pos) == s.committed(),
{
}

/// Feeding a position and ending a full block keep the buffers consistent.
pub proof fn law_feeding_keeps_shape<T>(
    s: LayerView<T>,
    spec_min: Option<usize>,
    ratio: int,
    head_dim: int,
    feed: Feed<T>,
)
    requires
        s.wf(ratio, head_dim),
        s.pending_len < ratio <= usize::MAX,
        feed.kv_row.len() == coff_of(ratio) * head_dim,
        feed.score_row.len() == coff_of(ratio) * head_dim,
        feed.row.len() == head_dim,
    ensures
        s.fed(spec_min, feed.pos, feed.kv_row, feed.score_row).wf(ratio, head_dim),
        s.stepped(spec_min, ratio, head_dim, feed).wf(ratio, head_dim),
        s.stepped(spec_min, ratio, head_dim, feed).pending_len < ratio,
        s.stepped(spec_min, ratio, head_dim, feed).last_fed_pos == Some(feed.pos),
{
    let width = coff_of(ratio) * head_dim;
    assert((s.pending_len + 1) * width == s.pending_len * width + width) by (nonlinear_arith);
    let next = s.fed(spec_min, feed.pos, feed.kv_row, feed.score_row);
    if next.pending_len == ratio {
        let done = next.flushed(ratio, head_dim, feed.row);
        assert(0 * width == 0) by (nonlinear_arith);
        assert(ratio * head_dim >= 0) by (nonlinear_arith)
            requires
                ratio > 0,
                head_dim > 0,
        ;
        let len = s.compressed.len() as int;
        assert((len + head_dim) % head_dim == 0) by (nonlinear_arith)
            requires
                len % head_dim == 0,
                head_dim > 0,
        ;
    }
}

/// A position that was fed is not fed again until it is taken back.
pub proof fn law_fed_positions_are_seen<T>(
    s: LayerView<T>,
    spec_min: Option<usize>,
    ratio: int,
    head_dim: int,
    feed: Feed<T>,
    earlier: int,
)
    requires
        earlier <= feed.pos,
    ensures
        s.stepped(spec_min, ratio, head_dim, feed).has_fed(earlier),
{
}

fn copied<T: Copy>(source: &Vec<T>) -> (copy: Vec<T>)
    ensures
        copy@ == source@,
{
    let mut copy: Vec<T> = Vec::with_capacity(source.len());
    let mut i: usize = 0;
    while i < source.len()
        invariant
            i <= source@.len(),
            copy@ == source@.take(i as int),
        decreases source@.len() - i,
    {
        copy.push(source[i]);
        proof {
            assert(copy@ =~= source@.take(i + 1));
        }
        i += 1;
    }
    proof {
        assert(source@.take(source@.len() as int) =~= source@);
    }
    copy
}

fn copied_halves<T: Copy>(source: &Option<(Vec<T>, Vec<T>)>) -> (copy: Option<(Vec<T>, Vec<T>)>)
    ensures
        halves(copy) == halves(*source),
{
    match source {
        Some(pair) => Some((copied(&pair.0), copied(&pair.1))),
        None => None,
    }
}

proof fn lemma_row_index(count: int, width: int, row: int, col: int)
    requires
        0 <= row < count,
        0 <= col < width,
    ensures
        0 <= row * width + col < count * width,
{
    assert(0 <= row * width) by (nonlinear_arith)
        requires
            0 <= row,
            0 <= width,
    ;
    assert(row * width + width <= count * width) by (nonlinear_arith)
        requires
            row + 1 <= count,
            0 <= width,
    ;
}

fn push_column<T: Copy>(out: &mut Vec<T>, rows: &Vec<T>, count: usize, width: usize, dim: usize)
    requires
        dim < width,
        count * width <= rows@.len(),
    ensures
        final(out)@ == old(out)@ + column(rows@, count as int, width as int, dim as int),
{
    let mut pos: usize = 0;
    proof {
        assert(out@ =~= old(out)@ + column(rows@, 0, width as int, dim as int));
    }
    while pos < count
        invariant
            pos <= count,
            dim < width,
            count * width <= rows@.len(),
            out@ == old(out)@ + column(rows@, pos as int, width as int, dim as int),
        decreases count - pos,
    {
        proof {
            lemma_row_index(count as int, width as int, pos as int, dim as int);
            assert(rows@.len() == rows.len());
        }
        out.push(rows[pos * width + dim]);
        proof {
            assert(out@ =~= old(out)@ + column(rows@, pos + 1, width as int, dim as int));
        }
        pos += 1;
    }
}

fn leading_rows<T: Copy>(rows: &Vec<T>, count: usize, width: usize, keep: usize) -> (out: Vec<T>)
    requires
        0 < keep <= width,
        count * width <= rows@.len(),
    ensures
        out@ == leading(rows@, count as int, width as int, keep as int),
{
    let mut out: Vec<T> = Vec::new();
    let mut pos: usize = 0;
    proof {
        assert(0 * keep == 0) by (nonlinear_arith);
        assert(out@ =~= leading(rows@, 0, width as int, keep as int));
    }
    while pos < count
        invariant
            pos <= count,
            0 < keep <= width,
            count * width <= rows@.len(),
            out@ == leading(rows@, pos as int, width as int, keep as int),
        decreases count - pos,
    {
        let mut col: usize = 0;
        let ghost before = out@;
        proof {
            assert(before.len() == pos * keep) by (nonlinear_arith)
                requires
                    before == leading(rows@, pos as int, width as int, keep as int),
                    before.len() == (pos * keep) as nat,
            ;
        }
        while col < keep
            invariant
                col <= keep,
                pos < count,
                0 < keep <= width,
                count * width <= rows@.len(),
                out@ == before + Seq::new(col as nat, |c: int| rows@[pos * width + c]),
            decreases keep - col,
        {
            proof {
                lemma_row_index(count as int, width as int, pos as int, col as int);
                assert(rows@.len() == rows.len());
            }
            out.push(rows[pos * width + col]);
            proof {
                assert(out@ =~= before + Seq::new(
                    (col + 1) as nat,
                    |c: int| rows@[pos * width + c],
                ));
            }
            col += 1;
        }
        proof {
            let next = leading(rows@, pos + 1, width as int, keep as int);
            assert((pos + 1) * keep == pos * keep + keep) by (nonlinear_arith);
            assert(out@.len() == next.len());
            assert forall|i: int| 0 <= i < out@.len() implies out@[i] == next[i] by {
                if i >= pos * keep {
                    let c = i - pos * keep;
                    assert(i / (keep as int) == pos && i % (keep as int) == c)
                        by (nonlinear_arith)
                        requires
                            i == pos * keep + c,
                            0 <= c < keep,
                    ;
                }
            }
            assert(out@ =~= next);
        }
        pos += 1;
    }
    out
}

impl<T: Copy> CompressorLayerState<T> {
    /// A compressor that was fed nothing.
    pub fn new(coff: usize) -> (state: Self)
        ensures
            state@ == LayerView::<T>::fresh(coff),
    {
        let state = CompressorLayerState {
            coff,
            pending_kv: Vec::new(),
            pending_score: Vec::new(),
            pending_len: 0,
            prev_first_half: None,
            compressed: Vec::new(),
            missing_logged: false,
            last_fed_pos: None,
            spec_undo: Vec::new(),
        };
        proof {
            assert(state@ =~= LayerView::<T>::fresh(coff));
        }
        state
    }

    /// Forgets everything, for a new sequence.
    pub fn restart(&mut self)
        ensures
            final(self)@ == old(self)@.restarted(),
    {
        self.pending_kv = Vec::new();
        self.pending_score = Vec::new();
        self.pending_len = 0;
        self.prev_first_half = None;
        self.compressed = Vec::new();
        self.last_fed_pos = None;
        self.spec_undo = Vec::new();
        proof {
            assert(self@ =~= old(self)@.restarted());
        }
    }

    /// Was this position fed before?
    pub fn already_fed(&self, token_pos: usize) -> (fed: bool)
        ensures
            fed == self@.has_fed(token_pos as int),
    {
        match self.last_fed_pos {
            Some(fed) => token_pos <= fed,
            None => false,
        }
    }

    /// A copy of the compressed rows that a position sees.
    pub fn visible_rows(&self, ratio: usize, head_dim: usize, token_pos: usize) -> (rows: Vec<T>)
        requires
            ratio > 0,
            head_dim > 0,
            token_pos < usize::MAX,
        ensures
            rows@ == self@.visible(ratio as int, head_dim as int, token_pos as int),
    {
        let blocks: usize = self.compressed.len() / head_dim;
        let complete: usize = (token_pos + 1) / ratio;
        let mut available: usize = if blocks < complete {
            blocks
        } else {
            complete
        };
        if MAX_COMPRESSED_ROWS < available {
            available = MAX_COMPRESSED_ROWS;
        }
        let ghost len = self.compressed@.len() as int;
        proof {
            assert(available * head_dim <= len) by (nonlinear_arith)
                requires
                    available <= len / (head_dim as int),
                    head_dim > 0,
                    len >= 0,
            ;
            assert(self.compressed@.len() == self.compressed.len());
        }
        let keep: usize = available * head_dim;
        let mut rows: Vec<T> = Vec::with_capacity(keep);
        let mut i: usize = 0;
        while i < keep
            invariant
                i <= keep <= self.compressed@.len(),
                rows@ == self.compressed@.take(i as int),
            decreases keep - i,
        {
            rows.push(self.compressed[i]);
            proof {
                assert(rows@ =~= self.compressed@.take(i + 1));
            }
            i += 1;
        }
        rows
    }

    /// Feeds the projections of a position. A position from `spec_min` on is
    /// remembered, so that it can be taken back.
    pub fn feed(
        &mut self,
        spec_min: Option<usize>,
        token_pos: usize,
        kv_row: &[T],
        score_row: &[T],
    )
        requires
            old(self).pending_len < usize::MAX,
        ensures
            final(self)@ == old(self)@.fed(spec_min, token_pos, kv_row@, score_row@),
    {
        let newest_differs: bool = if self.spec_undo.len() == 0 {
            true
        } else {
            self.spec_undo[self.spec_undo.len() - 1].pos != token_pos
        };
        let remembers: bool = match spec_min {
            Some(min_pos) => token_pos >= min_pos && newest_differs,
            None => false,
        };
        assert(remembers == self@.remembers(spec_min, token_pos));
        let ghost before = self@;
        if remembers {
            let snapshot = CompressorSnapshot {
                pos: token_pos,
                pending_kv: copied(&self.pending_kv),
                pending_score: copied(&self.pending_score),
                pending_len: self.pending_len,
                prev_first_half: copied_halves(&self.prev_first_half),
                compressed_len: self.compressed.len(),
                last_fed_pos: self.last_fed_pos,
            };
            assert(snapshot@ == before.snapshot(token_pos));
            self.spec_undo.push(snapshot);
            proof {
                assert(self@.undo =~= before.undo.push(before.snapshot(token_pos)));
            }
        }
        push_all(&mut self.pending_kv, kv_row);
        push_all(&mut self.pending_score, score_row);
        self.pending_len = self.pending_len + 1;
        self.last_fed_pos = Some(token_pos);
        proof {
            assert(self@ =~= before.fed(spec_min, token_pos, kv_row@, score_row@));
        }
    }

    /// Is the block full, with buffers of the lengths that go with it?
    pub fn is_full(&self, ratio: usize, head_dim: usize) -> (full: bool)
        ensures
            full == (self@.wf(ratio as int, head_dim as int) && self.pending_len == ratio),
    {
        if ratio == 0 || head_dim == 0 || self.pending_len != ratio {
            return false;
        }
        proof {
            assert(self.pending_kv@.len() == self.pending_kv.len());
            assert(self.pending_score@.len() == self.pending_score.len());
            assert(1 * (ratio * head_dim) == ratio * head_dim) by (nonlinear_arith);
        }
        let pending = count_rows(ratio, overlap_factor(ratio), head_dim);
        let half = count_rows(1, ratio, head_dim);
        let kept: bool = match &self.prev_first_half {
            Some(prev) => {
                proof {
                    assert(prev.0@.len() == prev.0.len() && prev.1@.len() == prev.1.len());
                }
                half == Some(prev.0.len()) && half == Some(prev.1.len())
            },
            None => true,
        };
        pending == Some(self.pending_kv.len()) && pending == Some(self.pending_score.len())
            && kept && self.compressed.len() % head_dim == 0
    }

    /// The scores and values that dimension `dim` of the next compressed row
    /// is pooled from.
    pub fn pool_slots(&self, ratio: usize, head_dim: usize, dim: usize) -> (slots: (Vec<T>, Vec<T>))
        requires
            self@.wf(ratio as int, head_dim as int),
            self.pending_len == ratio,
            dim < head_dim,
        ensures
            slots.0@ == self@.pool_scores(ratio as int, head_dim as int, dim as int),
            slots.1@ == self@.pool_values(ratio as int, head_dim as int, dim as int),
    {
        let mut scores: Vec<T> = Vec::new();
        let mut values: Vec<T> = Vec::new();
        if overlap_factor(ratio) == 2 {
            proof {
                assert(2 * head_dim <= ratio * (2 * head_dim)) by (nonlinear_arith)
                    requires
                        ratio >= 1,
                ;
                assert(self.pending_kv@.len() == self.pending_kv.len());
            }
            match &self.prev_first_half {
                Some(prev) => {
                    push_column(&mut scores, &prev.1, ratio, head_dim, dim);
                    push_column(&mut values, &prev.0, ratio, head_dim, dim);
                },
                None => {},
            }
            push_column(&mut scores, &self.pending_score, ratio, 2 * head_dim, head_dim + dim);
            push_column(&mut values, &self.pending_kv, ratio, 2 * head_dim, head_dim + dim);
        } else {
            push_column(&mut scores, &self.pending_score, ratio, head_dim, dim);
            push_column(&mut values, &self.pending_kv, ratio, head_dim, dim);
        }
        proof {
            assert(scores@ =~= self@.pool_scores(ratio as int, head_dim as int, dim as int));
            assert(values@ =~= self@.pool_values(ratio as int, head_dim as int, dim as int));
        }
        (scores, values)
    }

    /// Ends a full block with the compressed row `row`.
    pub fn flush(&mut self, ratio: usize, head_dim: usize, row: &[T])
        requires
            old(self)@.wf(ratio as int, head_dim as int),
            old(self).pending_len == ratio,
        ensures
            final(self)@ == old(self)@.flushed(ratio as int, head_dim as int, row@),
    {
        push_all(&mut self.compressed, row);
        if overlap_factor(ratio) == 2 {
            proof {
                assert(2 * head_dim <= ratio * (2 * head_dim)) by (nonlinear_arith)
                    requires
                        ratio >= 1,
                ;
                assert(self.pending_kv@.len() == self.pending_kv.len());
            }
            let first_kv: Vec<T> = leading_rows(&self.pending_kv, ratio, 2 * head_dim, head_dim);
            let first_score: Vec<T> = leading_rows(
                &self.pending_score,
                ratio,
                2 * head_dim,
                head_dim,
            );
            self.prev_first_half = Some((first_kv, first_score));
        }
        self.pending_kv = Vec::new();
        self.pending_score = Vec::new();
        self.pending_len = 0;
        proof {
            assert(self@ =~= old(self)@.flushed(ratio as int, head_dim as int, row@));
        }
    }

    /// Accepts the speculative positions.
    pub fn commit(&mut self)
        ensures
            final(self)@ == old(self)@.committed(),
    {
        self.spec_undo = Vec::new();
        proof {
            assert(self@ =~= old(self)@.committed());
        }
    }

    /// Takes back every position from `from_pos` on that was remembered.
    pub fn rollback(&mut self, from_pos: usize)
        ensures
            final(self)@ == old(self)@.rolled_back(from_pos as int),
    {
        let ghost before = self@;
        let mut restore: Option<CompressorSnapshot<T>> = None;
        while self.spec_undo.len() > 0 && self.spec_undo[self.spec_undo.len() - 1].pos >= from_pos
            invariant
                before == old(self)@,
                self@ == (LayerView { undo: self@.undo, ..before }),
                self@.undo.len() <= before.undo.len(),
                self@.undo == before.undo.take(self@.undo.len() as int),
                before.kept_undo(from_pos as int, before.undo.len() as int) == before.kept_undo(
                    from_pos as int,
                    self@.undo.len() as int,
                ),
                match restore {
                    None => self@.undo.len() == before.undo.len(),
                    Some(s) => self@.undo.len() < before.undo.len() && s@
                        == before.undo[self@.undo.len() as int],
                },
            decreases self.spec_undo@.len(),
        {
            let ghost n = self@.undo.len() as int;
            assert(before.undo[n - 1] == self@.undo[n - 1]);
            restore = self.spec_undo.pop();
            proof {
                assert(self@.undo =~= before.undo.take(n - 1));
            }
        }
        proof {
            let n = self@.undo.len() as int;
            if n > 0 {
                assert(self@.undo[n - 1] == before.undo[n - 1]);
            }
            assert(before.undo.take(before.undo.len() as int) =~= before.undo);
        }
        match restore {
            Some(snapshot) => {
                self.pending_kv = snapshot.pending_kv;
                self.pending_score = snapshot.pending_score;
                self.pending_len = snapshot.pending_len;
                self.prev_first_half = snapshot.prev_first_half;
                if snapshot.compressed_len < self.compressed.len() {
                    self.compressed.truncate(snapshot.compressed_len);
                }
                self.last_fed_pos = snapshot.last_fed_pos;
            },
            None => {},
        }
        proof {
            assert(self@ =~= before.rolled_back(from_pos as int));
        }
    }
}

fn push_all<T: Copy>(out: &mut Vec<T>, part: &[T])
    ensures
        final(out)@ == old(out)@ + part@,
{
    let mut i: usize = 0;
    proof {
        assert(out@ =~= old(out)@ + part@.take(0));
    }
    while i < part.len()
        invariant
            i <= part@.len(),
            out@ == old(out)@ + part@.take(i as int),
        decreases part@.len() - i,
    {
        out.push(part[i]);
        proof {
            assert(out@ =~= old(out)@ + part@.take(i + 1));
        }
        i += 1;
    }
    proof {
        assert(part@.take(part@.len() as int) =~= part@);
    }
}

/// The compressors of all layers, and from which position on feeds are
/// speculative. Layers stand in rising order.
pub struct CompressorStates<T> {
    spec_min: Option<usize>,
    layers: Vec<(usize, CompressorLayerState<T>)>,
}

/// What the compressors of all layers hold.
#[verifier::ext_equal]
pub struct StatesView<T> {
    pub spec_min: Option<usize>,
    pub layers: Map<usize, LayerView<T>>,
}

/// `layer` stands in the list.
pub open spec fn listed<S>(layers: Seq<(usize, S)>, layer: usize) -> bool {
    exists|i: int| 0 <= i < layers.len() && (#[trigger] layers[i]).0 == layer
}

/// Where `layer` stands in the list.
pub open spec fn place<S>(layers: Seq<(usize, S)>, layer: usize) -> int {
    choose|i: int| 0 <= i < layers.len() && (#[trigger] layers[i]).0 == layer
}

/// The list is in rising order.
pub open spec fn in_order<S>(layers: Seq<(usize, S)>) -> bool {
    forall|i: int, j: int|
        0 <= i < j < layers.len() ==> (#[trigger] layers[i]).0 < (#[trigger] layers[j]).0
}

/// The list as a map.
pub open spec fn as_map<S: View>(layers: Seq<(usize, S)>) -> Map<usize, S::V> {
    Map::new(|layer: usize| listed(layers, layer), |layer: usize| layers[place(layers, layer)].1@)
}

proof fn lemma_place<S: View>(layers: Seq<(usize, S)>, i: int)
    requires
        in_order(layers),
        0 <= i < layers.len(),
    ensures
        listed(layers, layers[i].0),
        place(layers, layers[i].0) == i,
        as_map(layers).dom().contains(layers[i].0),
        as_map(layers)[layers[i].0] == layers[i].1@,
{
    let p = place(layers, layers[i].0);
    assert(layers[p].0 == layers[i].0);
    if p < i {
        assert(layers[p].0 < layers[i].0);
    } else if i < p {
        assert(layers[i].0 < layers[p].0);
    }
}

proof fn lemma_update<S: View>(before: Seq<(usize, S)>, after: Seq<(usize, S)>, i: int)
    requires
        in_order(before),
        0 <= i < before.len(),
        after.len() == before.len(),
        after[i].0 == before[i].0,
        forall|j: int| 0 <= j < before.len() && j != i ==> after[j] == before[j],
    ensures
        in_order(after),
        as_map(after) == as_map(before).insert(before[i].0, after[i].1@),
{
    assert forall|j: int, k: int| 0 <= j < k < after.len() implies (#[trigger] after[j]).0 < (
    #[trigger] after[k]).0 by {
        assert(before[j].0 < before[k].0);
    }
    let expected = as_map(before).insert(before[i].0, after[i].1@);
    assert forall|layer: usize| #[trigger] as_map(after).dom().contains(layer)
        == expected.dom().contains(layer) by {
        if listed(after, layer) {
            let p = place(after, layer);
            lemma_place(before, p);
        }
        if listed(before, layer) {
            let p = place(before, layer);
            assert(after[p].0 == layer);
        }
        assert(after[i].0 == before[i].0);
    }
    assert forall|layer: usize| #[trigger] as_map(after).dom().contains(layer) implies as_map(
        after,
    )[layer] == expected[layer] by {
        let p = place(after, layer);
        lemma_place(after, p);
        lemma_place(before, p);
    }
    assert(as_map(after) =~= expected);
}

proof fn lemma_insert<S: View>(before: Seq<(usize, S)>, after: Seq<(usize, S)>, i: int, item: (usize, S))
    requires
        in_order(before),
        0 <= i <= before.len(),
        after == before.insert(i, item),
        forall|j: int| 0 <= j < i ==> (#[trigger] before[j]).0 < item.0,
        forall|j: int| i <= j < before.len() ==> item.0 < (#[trigger] before[j]).0,
    ensures
        in_order(after),
        as_map(after) == as_map(before).insert(item.0, item.1@),
{
    assert forall|j: int, k: int| 0 <= j < k < after.len() implies (#[trigger] after[j]).0 < (
    #[trigger] after[k]).0 by {
        let bj = if j < i {
            j
        } else {
            j - 1
        };
        let bk = if k < i {
            k
        } else {
            k - 1
        };
        if j != i {
            assert(after[j] == before[bj]);
        }
        if k != i {
            assert(after[k] == before[bk]);
        }
        if j != i && k != i {
            assert(before[bj].0 < before[bk].0);
        }
    }
    let expected = as_map(before).insert(item.0, item.1@);
    assert(after[i] == item);
    assert forall|layer: usize| #[trigger] as_map(after).dom().contains(layer)
        == expected.dom().contains(layer) by {
        if listed(after, layer) {
            let p = place(after, layer);
            if p != i {
                let bp = if p < i {
                    p
                } else {
                    p - 1
                };
                assert(after[p] == before[bp]);
                assert(listed(before, layer));
            }
        }
        if listed(before, layer) {
            let p = place(before, layer);
            let ap = if p < i {
                p
            } else {
                p + 1
            };
            assert(after[ap] == before[p]);
            assert(listed(after, layer));
        }
        if layer == item.0 {
            assert(listed(after, layer));
        }
    }
    assert forall|layer: usize| #[trigger] as_map(after).dom().contains(layer) implies as_map(
        after,
    )[layer] == expected[layer] by {
        let p = place(after, layer);
        lemma_place(after, p);
        if p != i {
            let bp = if p < i {
                p
            } else {
                p - 1
            };
            assert(after[p] == before[bp]);
            lemma_place(before, bp);
        }
    }
    assert(as_map(after) =~= expected);
}

impl<T> View for CompressorStates<T> {
    type V = StatesView<T>;

    closed spec fn view(&self) -> StatesView<T> {
        StatesView { spec_min: self.spec_min, layers: as_map(self.layers@) }
    }
}

/// What feeding a position comes to before anything is projected.
pub enum FeedStep<'a, T> {
    /// The layer does not compress.
    NoCompressor,
    /// The position was fed before: the rows it sees.
    Seen(Vec<T>),
    /// The block does not hold the compressor's tensors.
    MissingTensors,
    /// Project the position with these tensors and feed the result.
    Project(CompressorTensors<'a>),
}

/// The four tensors of a compressor.
pub struct CompressorTensors<'a> {
    pub wkv: QuantTensorLayout<'a>,
    pub wgate: QuantTensorLayout<'a>,
    pub ape: QuantTensorLayout<'a>,
    pub norm: QuantTensorLayout<'a>,
}

/// What the four tensors of a compressor hold.
#[verifier::ext_equal]
pub struct CompressorTensorsView {
    pub wkv: TensorView,
    pub wgate: TensorView,
    pub ape: TensorView,
    pub norm: TensorView,
}

impl<'a> View for CompressorTensors<'a> {
    type V = CompressorTensorsView;

    open spec fn view(&self) -> CompressorTensorsView {
        CompressorTensorsView {
            wkv: self.wkv@,
            wgate: self.wgate@,
            ape: self.ape@,
            norm: self.norm@,
        }
    }
}

/// The compressor's tensors in a block, where it has all four.
pub open spec fn compressor_tensors(b: BlockView) -> Result<
    Option<CompressorTensorsView>,
    ComputeError,
> {
    match by_suffix(b, "attn.compressor.wkv.weight".spec_bytes()) {
        Err(error) => Err(error),
        Ok(wkv) => match by_suffix(b, "attn.compressor.wgate.weight".spec_bytes()) {
            Err(error) => Err(error),
            Ok(wgate) => match by_suffix(b, "attn.compressor.ape".spec_bytes()) {
                Err(error) => Err(error),
                Ok(ape) => match by_suffix(b, "attn.compressor.norm.weight".spec_bytes()) {
                    Err(error) => Err(error),
                    Ok(norm) => match (wkv, wgate, ape, norm) {
                        (Some(wkv), Some(wgate), Some(ape), Some(norm)) => Ok(
                            Some(CompressorTensorsView { wkv, wgate, ape, norm }),
                        ),
                        _ => Ok(None),
                    },
                },
            },
        },
    }
}

/// The product with a projection of the compressor: FP8 with its scales, BF16
/// whatever the type that the tensor came from, and otherwise as any matrix.
pub open spec fn compressor_projection(
    b: BlockView,
    t: TensorView,
    input_len: int,
    output_len: int,
) -> Result<GemvView, ComputeError> {
    if t.quant_format == QUANT_DEEPSEEK_FP8_E4M3 {
        match fp8_scale_of(b, t) {
            Err(error) => Err(error),
            Ok(scale) => match fp8_whole(t, scale, input_len, output_len) {
                Err(error) => Err(error),
                Ok(rows) => Ok(GemvView::Fp8(rows)),
            },
        }
    } else if t.quant_format == QUANT_DEEPSEEK_BF16_AUX {
        match bf16_whole(t, input_len, output_len) {
            Err(error) => Err(error),
            Ok(rows) => Ok(GemvView::Bf16(rows)),
        }
    } else {
        match gemv_plain(t, input_len, output_len) {
            Err(error) => Err(error),
            Ok(plan) => Ok(plan.0),
        }
    }
}

/// Plans the product with a projection of the compressor.
pub fn plan_compressor_projection<'a>(
    layout: &QuantBlockLayout<'a>,
    tensor: QuantTensorLayout<'a>,
    input_len: usize,
    output_len: usize,
) -> (result: Result<GemvPlan<'a>, ComputeError>)
    ensures
        agrees(
            result,
            compressor_projection(layout@, tensor@, input_len as int, output_len as int),
        ),
        result matches Ok(plan) ==> plan@.wf(),
{
    if tensor.quant_format == QUANT_DEEPSEEK_FP8_E4M3 {
        let scale = fp8_scale_for_weight(layout, tensor)?;
        let rows = plan_fp8_tensorwise(tensor, scale, input_len, output_len)?;
        Ok(GemvPlan::Fp8(rows))
    } else if tensor.quant_format == QUANT_DEEPSEEK_BF16_AUX {
        let rows = plan_bf16_tensorwise(tensor, input_len, output_len)?;
        Ok(GemvPlan::Bf16(rows))
    } else {
        let (plan, _values): (GemvPlan<'a>, usize) = plan_gemv_tensorwise(
            tensor,
            input_len,
            output_len,
        )?;
        Ok(plan)
    }
}

fn find_compressor_tensors<'a>(layout: &QuantBlockLayout<'a>) -> (result: Result<
    Option<CompressorTensors<'a>>,
    ComputeError,
>)
    ensures
        found_agrees(result, compressor_tensors(layout@)),
{
    let wkv = match tensor_by_name_suffix(layout, "attn.compressor.wkv.weight") {
        Ok(found) => found,
        Err(error) => return Err(error),
    };
    let wgate = match tensor_by_name_suffix(layout, "attn.compressor.wgate.weight") {
        Ok(found) => found,
        Err(error) => return Err(error),
    };
    let ape = match tensor_by_name_suffix(layout, "attn.compressor.ape") {
        Ok(found) => found,
        Err(error) => return Err(error),
    };
    let norm = match tensor_by_name_suffix(layout, "attn.compressor.norm.weight") {
        Ok(found) => found,
        Err(error) => return Err(error),
    };
    match (wkv, wgate, ape, norm) {
        (Some(wkv), Some(wgate), Some(ape), Some(norm)) => Ok(
            Some(CompressorTensors { wkv, wgate, ape, norm }),
        ),
        _ => Ok(None),
    }
}

/// The offsets that are added to the scores of position `pos_in_block` of a
/// block, as single-precision patterns.
pub fn ape_row(
    ape: &QuantTensorLayout<'_>,
    ratio: usize,
    proj_dim: usize,
    pos_in_block: usize,
) -> (result: Result<Vec<u32>, ComputeError>)
    requires
        pos_in_block < ratio,
        ratio * proj_dim <= usize::MAX,
    ensures
        if 4 * (ratio * proj_dim) > ape@.data.len() {
            result == Err::<Vec<u32>, ComputeError>(
                ComputeError::InvalidShape("compressor ape too small"),
            )
        } else {
            result matches Ok(row) && row@ == f32_values(
                ape@.data,
                ratio * proj_dim,
            ).subrange(pos_in_block * proj_dim, (pos_in_block + 1) * proj_dim)
        },
{
    let values: Vec<u32> = match read_f32_tensor_values(ape, ratio * proj_dim) {
        Some(values) => values,
        None => return Err(ComputeError::InvalidShape("compressor ape too small")),
    };
    proof {
        assert(pos_in_block * proj_dim + proj_dim <= ratio * proj_dim) by (nonlinear_arith)
            requires
                pos_in_block + 1 <= ratio,
        ;
        assert((pos_in_block + 1) * proj_dim == pos_in_block * proj_dim + proj_dim)
            by (nonlinear_arith);
        assert(0 <= pos_in_block * proj_dim) by (nonlinear_arith);
    }
    let start: usize = pos_in_block * proj_dim;
    let mut row: Vec<u32> = Vec::with_capacity(proj_dim);
    row.extend_from_slice(&values.as_slice()[start..start + proj_dim]);
    proof {
        assert(row@ =~= values@.subrange(start as int, start + proj_dim));
    }
    Ok(row)
}

impl<T> StatesView<T> {
    /// The compressor of a layer, a fresh one where it has none, restarted at
    /// position zero.
    pub open spec fn entered(self, layer: usize, token_pos: usize) -> LayerView<T> {
        let ratio = ratio_of(layer as int);
        let state = if self.layers.dom().contains(layer) {
            self.layers[layer]
        } else {
            LayerView::fresh(coff_of(ratio as int))
        };
        if token_pos == 0 {
            state.restarted()
        } else {
            state
        }
    }

    /// These compressors, with `state` for `layer`.
    pub open spec fn with_layer(self, layer: usize, state: LayerView<T>) -> StatesView<T> {
        StatesView { layers: self.layers.insert(layer, state), ..self }
    }
}

impl<T: Copy> CompressorStates<T> {
    /// The layers stand in rising order.
    pub closed spec fn wf(&self) -> bool {
        in_order(self.layers@)
    }

    /// No compressor yet.
    pub fn new() -> (states: Self)
        ensures
            states.wf(),
            states@ == (StatesView::<T> { spec_min: None, layers: Map::empty() }),
    {
        let states = CompressorStates { spec_min: None, layers: Vec::new() };
        proof {
            assert(states@.layers =~= Map::empty());
        }
        states
    }

    fn position(&self, layer: usize) -> (at: usize)
        requires
            self.wf(),
        ensures
            at <= self.layers@.len(),
            forall|j: int| 0 <= j < at ==> (#[trigger] self.layers@[j]).0 < layer,
            forall|j: int| at <= j < self.layers@.len() ==> layer <= (#[trigger] self.layers@[j]).0,
    {
        let mut at: usize = 0;
        while at < self.layers.len() && self.layers[at].0 < layer
            invariant
                at <= self.layers@.len(),
                forall|j: int| 0 <= j < at ==> (#[trigger] self.layers@[j]).0 < layer,
            decreases self.layers@.len() - at,
        {
            at += 1;
        }
        proof {
            assert forall|j: int| at <= j < self.layers@.len() implies layer <= (
            #[trigger] self.layers@[j]).0 by {
                if j > at {
                    assert(self.layers@[at as int].0 < self.layers@[j].0);
                }
            }
        }
        at
    }

    fn enter(&mut self, layer: usize, token_pos: usize) -> (at: usize)
        requires
            old(self).wf(),
        ensures
            final(self).wf(),
            at < final(self).layers@.len(),
            final(self).layers@[at as int].0 == layer,
            final(self).layers@[at as int].1@ == old(self)@.entered(layer, token_pos),
            final(self)@ == old(self)@.with_layer(layer, old(self)@.entered(layer, token_pos)),
    {
        let at: usize = self.position(layer);
        let ghost before = self.layers@;
        let found: bool = at < self.layers.len() && self.layers[at].0 == layer;
        if !found {
            let state = CompressorLayerState::new(overlap_factor(compress_ratio(layer)));
            let item = (layer, state);
            self.layers.insert(at, item);
            proof {
                lemma_insert(before, self.layers@, at as int, item);
                if listed(before, layer) {
                    let p = place(before, layer);
                    assert(before[p].0 == layer);
                }
            }
        } else {
            proof {
                lemma_place(before, at as int);
                lemma_update(before, self.layers@, at as int);
                assert(as_map(before).insert(layer, before[at as int].1@) =~= as_map(before));
            }
        }
        proof {
            lemma_place(self.layers@, at as int);
        }
        if token_pos == 0 {
            let ghost middle = self.layers@;
            self.layers[at].1.restart();
            proof {
                lemma_update(middle, self.layers@, at as int);
                assert(self@.layers =~= old(self)@.with_layer(
                    layer,
                    old(self)@.entered(layer, token_pos),
                ).layers);
            }
        }
        at
    }

    /// Begins feeding a position: enters the layer's compressor and finds out
    /// what is to be done.
    pub fn begin_feed<'a>(
        &mut self,
        layout: &QuantBlockLayout<'a>,
        layer: usize,
        token_pos: usize,
        head_dim: usize,
    ) -> (result: Result<FeedStep<'a, T>, ComputeError>)
        requires
            old(self).wf(),
            head_dim > 0,
            token_pos < usize::MAX,
        ensures
            final(self).wf(),
            ({
                let ratio = ratio_of(layer as int);
                let state = old(self)@.entered(layer, token_pos);
                if ratio == 0 {
                    result matches Ok(FeedStep::NoCompressor) && final(self)@ == old(self)@
                } else if state.has_fed(token_pos as int) {
                    &&& result matches Ok(FeedStep::Seen(rows))
                    &&& rows@ == state.visible(ratio as int, head_dim as int, token_pos as int)
                    &&& final(self)@ == old(self)@.with_layer(layer, state)
                } else {
                    match compressor_tensors(layout@) {
                        Err(error) => result == Err::<FeedStep<'a, T>, ComputeError>(error)
                            && final(self)@ == old(self)@.with_layer(layer, state),
                        Ok(None) => result matches Ok(FeedStep::MissingTensors) && final(self)@
                            == old(self)@.with_layer(
                            layer,
                            (LayerView { missing_logged: true, ..state }),
                        ),
                        Ok(Some(tensors)) => {
                            &&& result matches Ok(FeedStep::Project(found))
                            &&& found@ == tensors
                            &&& final(self)@ == old(self)@.with_layer(layer, state)
                        },
                    }
                }
            }),
    {
        let ratio: usize = compress_ratio(layer);
        if ratio == 0 {
            return Ok(FeedStep::NoCompressor);
        }
        let at: usize = self.enter(layer, token_pos);
        if self.layers[at].1.already_fed(token_pos) {
            return Ok(FeedStep::Seen(self.layers[at].1.visible_rows(ratio, head_dim, token_pos)));
        }
        match find_compressor_tensors(layout) {
            Err(error) => Err(error),
            Ok(Some(tensors)) => Ok(FeedStep::Project(tensors)),
            Ok(None) => {
                let ghost middle = self.layers@;
                self.layers[at].1.missing_logged = true;
                proof {
                    lemma_update(middle, self.layers@, at as int);
                    assert(self@.layers =~= old(self)@.with_layer(
                        layer,
                        (LayerView {
                            missing_logged: true,
                            ..old(self)@.entered(layer, token_pos)
                        }),
                    ).layers);
                }
                Ok(FeedStep::MissingTensors)
            },
        }
    }

    /// Position of the next feed within its block.
    pub fn pos_in_block(&self, layer: usize) -> (pos: usize)
        requires
            self.wf(),
            self@.layers.dom().contains(layer),
        ensures
            pos == self@.layers[layer].pending_len,
    {
        let at: usize = self.at_layer(layer);
        self.layers[at].1.pending_len
    }

    fn at_layer(&self, layer: usize) -> (at: usize)
        requires
            self.wf(),
            self@.layers.dom().contains(layer),
        ensures
            at < self.layers@.len(),
            self.layers@[at as int].0 == layer,
            self@.layers[layer] == self.layers@[at as int].1@,
    {
        let at: usize = self.position(layer);
        proof {
            let p = place(self.layers@, layer);
            assert(self.layers@[p].0 == layer);
            lemma_place(self.layers@, p);
            if p > at {
                assert(self.layers@[at as int].0 < self.layers@[p].0);
            }
        }
        at
    }

    /// Feeds the projections of a position to a layer. Returns whether the
    /// block is now full and must be flushed.
    pub fn feed(&mut self, layer: usize, token_pos: usize, kv_row: &[T], score_row: &[T]) -> (full:
        bool)
        requires
            old(self).wf(),
            old(self)@.layers.dom().contains(layer),
            old(self)@.layers[layer].pending_len < usize::MAX,
        ensures
            final(self).wf(),
            final(self)@ == old(self)@.with_layer(
                layer,
                old(self)@.layers[layer].fed(
                    old(self)@.spec_min,
                    token_pos,
                    kv_row@,
                    score_row@,
                ),
            ),
            full == (old(self)@.layers[layer].pending_len + 1 == ratio_of(layer as int)),
    {
        let at: usize = self.at_layer(layer);
        let spec_min: Option<usize> = self.spec_min;
        let ghost before = self.layers@;
        self.layers[at].1.feed(spec_min, token_pos, kv_row, score_row);
        proof {
            lemma_update(before, self.layers@, at as int);
        }
        self.layers[at].1.pending_len == compress_ratio(layer)
    }

    /// The scores and values that dimension `dim` of a layer's next compressed
    /// row is pooled from.
    pub fn pool_slots(&self, layer: usize, head_dim: usize, dim: usize) -> (slots: (Vec<T>, Vec<T>))
        requires
            self.wf(),
            self@.layers.dom().contains(layer),
            self@.layers[layer].wf(ratio_of(layer as int) as int, head_dim as int),
            self@.layers[layer].pending_len == ratio_of(layer as int),
            dim < head_dim,
        ensures
            slots.0@ == self@.layers[layer].pool_scores(
                ratio_of(layer as int) as int,
                head_dim as int,
                dim as int,
            ),
            slots.1@ == self@.layers[layer].pool_values(
                ratio_of(layer as int) as int,
                head_dim as int,
                dim as int,
            ),
    {
        let at: usize = self.at_layer(layer);
        self.layers[at].1.pool_slots(compress_ratio(layer), head_dim, dim)
    }

    /// Is a layer's block full, with buffers of the lengths that go with it?
    pub fn can_flush(&self, layer: usize, head_dim: usize) -> (ready: bool)
        requires
            self.wf(),
        ensures
            ready == (self@.layers.dom().contains(layer) && self@.layers[layer].wf(
                ratio_of(layer as int) as int,
                head_dim as int,
            ) && self@.layers[layer].pending_len == ratio_of(layer as int)),
    {
        match self.layer(layer) {
            Some(state) => state.is_full(compress_ratio(layer), head_dim),
            None => false,
        }
    }

    /// Ends a layer's full block with the compressed row `row`.
    pub fn flush(&mut self, layer: usize, head_dim: usize, row: &[T])
        requires
            old(self).wf(),
            old(self)@.layers.dom().contains(layer),
            old(self)@.layers[layer].wf(ratio_of(layer as int) as int, head_dim as int),
            old(self)@.layers[layer].pending_len == ratio_of(layer as int),
        ensures
            final(self).wf(),
            final(self)@ == old(self)@.with_layer(
                layer,
                old(self)@.layers[layer].flushed(
                    ratio_of(layer as int) as int,
                    head_dim as int,
                    row@,
                ),
            ),
    {
        let at: usize = self.at_layer(layer);
        let ghost before = self.layers@;
        self.layers[at].1.flush(compress_ratio(layer), head_dim, row);
        proof {
            lemma_update(before, self.layers@, at as int);
        }
    }

    /// The compressor of a layer, once a position has been fed to it.
    pub fn layer(&self, layer: usize) -> (state: Option<&CompressorLayerState<T>>)
        requires
            self.wf(),
        ensures
            state is Some <==> self@.layers.dom().contains(layer),
            state matches Some(found) ==> found@ == self@.layers[layer],
    {
        let at: usize = self.position(layer);
        if at < self.layers.len() && self.layers[at].0 == layer {
            proof {
                lemma_place(self.layers@, at as int);
            }
            Some(&self.layers[at].1)
        } else {
            None
        }
    }

    /// Number of complete compressed rows of a layer.
    pub fn block_count(&self, layer: usize, head_dim: usize) -> (blocks: usize)
        requires
            self.wf(),
            self@.layers.dom().contains(layer),
            head_dim > 0,
        ensures
            blocks == self@.layers[layer].compressed.len() as int / head_dim as int,
    {
        let at: usize = self.at_layer(layer);
        self.layers[at].1.compressed.len() / head_dim
    }

    /// The compressed rows of a layer that a position sees.
    pub fn visible_rows(&self, layer: usize, head_dim: usize, token_pos: usize) -> (rows: Vec<T>)
        requires
            self.wf(),
            self@.layers.dom().contains(layer),
            ratio_of(layer as int) > 0,
            head_dim > 0,
            token_pos < usize::MAX,
        ensures
            rows@ == self@.layers[layer].visible(
                ratio_of(layer as int) as int,
                head_dim as int,
                token_pos as int,
            ),
    {
        let at: usize = self.at_layer(layer);
        self.layers[at].1.visible_rows(compress_ratio(layer), head_dim, token_pos)
    }
}

impl<T> StatesView<T> {
    /// All speculative positions accepted, and speculation over.
    pub open spec fn committed(self) -> StatesView<T> {
        StatesView {
            spec_min: None,
            layers: self.layers.map_values(|layer: LayerView<T>| layer.committed()),
        }
    }

    /// Every remembered position from `from_pos` on taken back, and
    /// speculation over.
    pub open spec fn rolled_back(self, from_pos: int) -> StatesView<T> {
        StatesView {
            spec_min: None,
            layers: self.layers.map_values(|layer: LayerView<T>| layer.rolled_back(from_pos)),
        }
    }

    /// What a session keeps of all layers.
    pub open spec fn exported(self) -> Map<usize, LayerView<T>> {
        self.layers.map_values(|layer: LayerView<T>| layer.exported())
    }
}

impl<T> LayerView<T> {
    /// What a session keeps of a layer: all but the means to take back.
    pub open spec fn exported(self) -> LayerView<T> {
        LayerView { missing_logged: false, undo: seq![], ..self }
    }
}

/// Position from which feeds are speculative, while they are.
pub fn deepseek_compressor_spec_min<T: Copy>(states: &CompressorStates<T>) -> (min_pos: Option<
    usize,
>)
    ensures
        min_pos == states@.spec_min,
{
    states.spec_min
}

/// Begins speculation: feeds at `min_pos` or later are remembered.
pub fn deepseek_compressor_speculation_begin<T: Copy>(
    states: &mut CompressorStates<T>,
    min_pos: usize,
)
    requires
        old(states).wf(),
    ensures
        final(states).wf(),
        final(states)@ == (StatesView { spec_min: Some(min_pos), ..old(states)@ }),
{
    states.spec_min = Some(min_pos);
}

/// Accepts the speculative positions of every layer.
pub fn deepseek_compressor_speculation_commit<T: Copy>(states: &mut CompressorStates<T>)
    requires
        old(states).wf(),
    ensures
        final(states).wf(),
        final(states)@ == old(states)@.committed(),
{
    let ghost before = states.layers@;
    states.spec_min = None;
    let count: usize = states.layers.len();
    let mut i: usize = 0;
    while i < count
        invariant
            i <= count,
            count == before.len(),
            states.layers@.len() == before.len(),
            states.spec_min is None,
            forall|j: int|
                0 <= j < i ==> (#[trigger] states.layers@[j]).0 == before[j].0
                    && states.layers@[j].1@ == before[j].1@.committed(),
            forall|j: int| i <= j < count ==> #[trigger] states.layers@[j] == before[j],
        decreases count - i,
    {
        states.layers[i].1.commit();
        i += 1;
    }
    proof {
        lemma_mapped(before, states.layers@, |layer: LayerView<T>| layer.committed());
    }
}

/// Takes back every remembered position from `from_pos` on, in every layer.
pub fn deepseek_compressor_speculation_rollback<T: Copy>(
    states: &mut CompressorStates<T>,
    from_pos: usize,
)
    requires
        old(states).wf(),
    ensures
        final(states).wf(),
        final(states)@ == old(states)@.rolled_back(from_pos as int),
{
    let ghost before = states.layers@;
    states.spec_min = None;
    let count: usize = states.layers.len();
    let mut i: usize = 0;
    while i < count
        invariant
            i <= count,
            count == before.len(),
            states.layers@.len() == before.len(),
            states.spec_min is None,
            forall|j: int|
                0 <= j < i ==> (#[trigger] states.layers@[j]).0 == before[j].0
                    && states.layers@[j].1@ == before[j].1@.rolled_back(from_pos as int),
            forall|j: int| i <= j < count ==> #[trigger] states.layers@[j] == before[j],
        decreases count - i,
    {
        states.layers[i].1.rollback(from_pos);
        i += 1;
    }
    proof {
        lemma_mapped(
            before,
            states.layers@,
            |layer: LayerView<T>| layer.rolled_back(from_pos as int),
        );
    }
}

/// One layer's compressor, as a session keeps it.
pub struct CompressorLayerExport<T> {
    coff: usize,
    pending_kv: Vec<T>,
    pending_score: Vec<T>,
    pending_len: usize,
    prev_first_half: Option<(Vec<T>, Vec<T>)>,
    compressed: Vec<T>,
    last_fed_pos: Option<usize>,
}

impl<T> View for CompressorLayerExport<T> {
    type V = LayerView<T>;

    closed spec fn view(&self) -> LayerView<T> {
        LayerView {
            coff: self.coff,
            pending_kv: self.pending_kv@,
            pending_score: self.pending_score@,
            pending_len: self.pending_len,
            prev: halves(self.prev_first_half),
            compressed: self.compressed@,
            missing_logged: false,
            last_fed_pos: self.last_fed_pos,
            undo: seq![],
        }
    }
}

/// The compressors of all layers, as a session keeps them beside its keys and
/// values.
pub struct CompressorSessionState<T> {
    layers: Vec<(usize, CompressorLayerExport<T>)>,
}

impl<T> View for CompressorSessionState<T> {
    type V = Map<usize, LayerView<T>>;

    closed spec fn view(&self) -> Map<usize, LayerView<T>> {
        as_map(self.layers@)
    }
}

impl<T> CompressorSessionState<T> {
    /// The layers stand in rising order.
    pub closed spec fn wf(&self) -> bool {
        in_order(self.layers@)
    }
}

/// Copies the compressors for a session. What could still be taken back is not
/// kept: a session is stored after speculation has ended.
pub fn deepseek_compressor_state_export<T: Copy>(states: &CompressorStates<T>) -> (session:
    CompressorSessionState<T>)
    requires
        states.wf(),
    ensures
        session.wf(),
        session@ == states@.exported(),
{
    let mut layers: Vec<(usize, CompressorLayerExport<T>)> = Vec::new();
    let mut i: usize = 0;
    while i < states.layers.len()
        invariant
            i <= states.layers@.len(),
            layers@.len() == i,
            forall|j: int|
                0 <= j < i ==> (#[trigger] layers@[j]).0 == states.layers@[j].0
                    && layers@[j].1@ == states.layers@[j].1@.exported(),
        decreases states.layers@.len() - i,
    {
        let state: &CompressorLayerState<T> = &states.layers[i].1;
        let export = CompressorLayerExport {
            coff: state.coff,
            pending_kv: copied(&state.pending_kv),
            pending_score: copied(&state.pending_score),
            pending_len: state.pending_len,
            prev_first_half: copied_halves(&state.prev_first_half),
            compressed: copied(&state.compressed),
            last_fed_pos: state.last_fed_pos,
        };
        assert(export@ =~= state@.exported());
        layers.push((states.layers[i].0, export));
        i += 1;
    }
    proof {
        lemma_mapped(
            states.layers@,
            layers@,
            |layer: LayerView<T>| layer.exported(),
        );
    }
    CompressorSessionState { layers }
}

proof fn lemma_mapped<S: View, U: View<V = <S as View>::V>>(
    before: Seq<(usize, S)>,
    after: Seq<(usize, U)>,
    f: spec_fn(S::V) -> S::V,
)
    requires
        in_order(before),
        after.len() == before.len(),
        forall|i: int|
            0 <= i < before.len() ==> (#[trigger] after[i]).0 == before[i].0 && after[i].1@ == f(
                before[i].1@,
            ),
    ensures
        in_order(after),
        as_map(after) == as_map(before).map_values(f),
{
    assert forall|j: int, k: int| 0 <= j < k < after.len() implies (#[trigger] after[j]).0 < (
    #[trigger] after[k]).0 by {
        assert(before[j].0 < before[k].0);
    }
    let expected = as_map(before).map_values(f);
    assert forall|layer: usize| #[trigger] as_map(after).dom().contains(layer)
        == expected.dom().contains(layer) by {
        if listed(after, layer) {
            let p = place(after, layer);
            assert(after[p].0 == layer);
            assert(before[p].0 == layer);
            assert(listed(before, layer));
        }
        if listed(before, layer) {
            let p = place(before, layer);
            assert(after[p].0 == layer);
            assert(listed(after, layer));
        }
    }
    assert forall|layer: usize| #[trigger] as_map(after).dom().contains(layer) implies as_map(
        after,
    )[layer] == expected[layer] by {
        let p = place(after, layer);
        lemma_place(after, p);
        assert(after[p].0 == before[p].0);
        lemma_place(before, p);
    }
    assert(as_map(after) =~= expected);
}

/// Replaces the compressors by what a session kept of them.
pub fn deepseek_compressor_state_import<T: Copy>(
    states: &mut CompressorStates<T>,
    session: &CompressorSessionState<T>,
)
    requires
        session.wf(),
    ensures
        final(states).wf(),
        final(states)@ == (StatesView { layers: session@, ..old(states)@ }),
{
    let mut layers: Vec<(usize, CompressorLayerState<T>)> = Vec::new();
    let mut i: usize = 0;
    while i < session.layers.len()
        invariant
            i <= session.layers@.len(),
            layers@.len() == i,
            forall|j: int|
                0 <= j < i ==> (#[trigger] layers@[j]).0 == session.layers@[j].0
                    && layers@[j].1@ == session.layers@[j].1@,
        decreases session.layers@.len() - i,
    {
        let export: &CompressorLayerExport<T> = &session.layers[i].1;
        let state = CompressorLayerState {
            coff: export.coff,
            pending_kv: copied(&export.pending_kv),
            pending_score: copied(&export.pending_score),
            pending_len: export.pending_len,
            prev_first_half: copied_halves(&export.prev_first_half),
            compressed: copied(&export.compressed),
            missing_logged: false,
            last_fed_pos: export.last_fed_pos,
            spec_undo: Vec::new(),
        };
        assert(state@ =~= export@);
        layers.push((session.layers[i].0, state));
        i += 1;
    }
    proof {
        let same = |layer: LayerView<T>| layer;
        lemma_mapped(session.layers@, layers@, same);
        assert(as_map(session.layers@).map_values(same) =~= as_map(session.layers@));
    }
    states.layers = layers;
}

/// A session that is stored and put back finds the compressors as it left
/// them, without the means to take anything back.
pub proof fn law_session_keeps_compressors<T>(s: StatesView<T>, layer: usize)
    requires
        s.layers.dom().contains(layer),
    ensures
        s.exported().dom().contains(layer),
        s.exported()[layer] == s.layers[layer].exported(),
        s.layers[layer].undo.len() == 0 && !s.layers[layer].missing_logged ==> s.exported()[layer]
            == s.layers[layer],
{
    if s.layers[layer].undo.len() == 0 {
        assert(s.layers[layer].undo =~= seq![]);
    }
}

/// Which layers compress, and by how much: the first two and all past the last do
/// not; the others take turns with few and with many positions per row.
pub proof fn law_layers_take_turns(layer: int)
    ensures
        ratio_of(layer) == if 2 <= layer <= 42 {
            if layer % 2 == 0 {
                4
            } else {
                128
            }
        } else {
            0int
        },
        coff_of(4) == 2,
        coff_of(128) == 1,
{
    reveal_with_fuel(ratio_of, 1);
    if 0 <= layer < 44 {
        let table = DEEPSEEK_V4_COMPRESS_RATIOS@;
        assert(table[0] == 0 && table[1] == 0 && table[43] == 0);
        assert(table[2] == 4 && table[4] == 4 && table[6] == 4 && table[8] == 4 && table[10] == 4);
        assert(table[12] == 4 && table[14] == 4 && table[16] == 4 && table[18] == 4);
        assert(table[20] == 4 && table[22] == 4 && table[24] == 4 && table[26] == 4);
        assert(table[28] == 4 && table[30] == 4 && table[32] == 4 && table[34] == 4);
        assert(table[36] == 4 && table[38] == 4 && table[40] == 4 && table[42] == 4);
        assert(table[3] == 128 && table[5] == 128 && table[7] == 128 && table[9] == 128);
        assert(table[11] == 128 && table[13] == 128 && table[15] == 128 && table[17] == 128);
        assert(table[19] == 128 && table[21] == 128 && table[23] == 128 && table[25] == 128);
        assert(table[27] == 128 && table[29] == 128 && table[31] == 128 && table[33] == 128);
        assert(table[35] == 128 && table[37] == 128 && table[39] == 128 && table[41] == 128);
    }
}

spec fn at_row<T>(rows: Seq<T>, width: int, row: int, col: int) -> T {
    rows[row * width + col]
}

proof fn lemma_fed_rows<T>(
    s: LayerView<T>,
    spec_min: Option<usize>,
    ratio: int,
    head_dim: int,
    width: int,
    feeds: Seq<Feed<T>>,
    n: int,
)
    requires
        0 <= n < ratio,
        n <= feeds.len(),
        ratio <= usize::MAX,
        width >= 0,
        s.pending_len == 0,
        s.pending_kv.len() == 0,
        s.pending_score.len() == 0,
        forall|i: int|
            0 <= i < feeds.len() ==> (#[trigger] feeds[i]).kv_row.len() == width
                && feeds[i].score_row.len() == width,
    ensures
        s.run(spec_min, ratio, head_dim, feeds, n).pending_len == n,
        s.run(spec_min, ratio, head_dim, feeds, n).pending_kv.len() == n * width,
        s.run(spec_min, ratio, head_dim, feeds, n).pending_score.len() == n * width,
        s.run(spec_min, ratio, head_dim, feeds, n).prev == s.prev,
        s.run(spec_min, ratio, head_dim, feeds, n).compressed == s.compressed,
        forall|i: int, d: int|
            0 <= i < n && 0 <= d < width ==> #[trigger] at_row(
                s.run(spec_min, ratio, head_dim, feeds, n).pending_kv,
                width,
                i,
                d,
            ) == feeds[i].kv_row[d],
        forall|i: int, d: int|
            0 <= i < n && 0 <= d < width ==> #[trigger] at_row(
                s.run(spec_min, ratio, head_dim, feeds, n).pending_score,
                width,
                i,
                d,
            ) == feeds[i].score_row[d],
    decreases n,
{
    if n > 0 {
        lemma_fed_rows(s, spec_min, ratio, head_dim, width, feeds, n - 1);
        let before = s.run(spec_min, ratio, head_dim, feeds, n - 1);
        let at = s.run(spec_min, ratio, head_dim, feeds, n);
        assert(feeds[n - 1].kv_row.len() == width);
        assert((n - 1) * width + width == n * width) by (nonlinear_arith);
        assert forall|i: int, d: int| 0 <= i < n && 0 <= d < width implies #[trigger] at_row(
            at.pending_kv,
            width,
            i,
            d,
        ) == feeds[i].kv_row[d] by {
            if i < n - 1 {
                lemma_row_index(n - 1, width, i, d);
                assert(at_row(before.pending_kv, width, i, d) == feeds[i].kv_row[d]);
            }
        }
        assert forall|i: int, d: int| 0 <= i < n && 0 <= d < width implies #[trigger] at_row(
            at.pending_score,
            width,
            i,
            d,
        ) == feeds[i].score_row[d] by {
            if i < n - 1 {
                lemma_row_index(n - 1, width, i, d);
                assert(at_row(before.pending_score, width, i, d) == feeds[i].score_row[d]);
            }
        }
    } else {
        assert(n * width == 0) by (nonlinear_arith)
            requires
                n == 0,
        ;
    }
}

/// The compressor once a block was fed in full and before it ends.
pub open spec fn block_fed<T>(
    s: LayerView<T>,
    spec_min: Option<usize>,
    ratio: int,
    head_dim: int,
    feeds: Seq<Feed<T>>,
) -> LayerView<T> {
    s.run(spec_min, ratio, head_dim, feeds, ratio - 1).fed(
        spec_min,
        feeds[ratio - 1].pos,
        feeds[ratio - 1].kv_row,
        feeds[ratio - 1].score_row,
    )
}

proof fn lemma_block_rows<T>(
    s: LayerView<T>,
    spec_min: Option<usize>,
    ratio: int,
    head_dim: int,
    width: int,
    feeds: Seq<Feed<T>>,
)
    requires
        0 < ratio <= usize::MAX,
        feeds.len() == ratio,
        width >= 0,
        s.pending_len == 0,
        s.pending_kv.len() == 0,
        s.pending_score.len() == 0,
        forall|i: int|
            0 <= i < feeds.len() ==> (#[trigger] feeds[i]).kv_row.len() == width
                && feeds[i].score_row.len() == width,
    ensures
        block_fed(s, spec_min, ratio, head_dim, feeds).pending_len == ratio,
        block_fed(s, spec_min, ratio, head_dim, feeds).pending_kv.len() == ratio * width,
        block_fed(s, spec_min, ratio, head_dim, feeds).pending_score.len() == ratio * width,
        block_fed(s, spec_min, ratio, head_dim, feeds).prev == s.prev,
        forall|i: int, d: int|
            0 <= i < ratio && 0 <= d < width ==> #[trigger] at_row(
                block_fed(s, spec_min, ratio, head_dim, feeds).pending_kv,
                width,
                i,
                d,
            ) == feeds[i].kv_row[d],
        forall|i: int, d: int|
            0 <= i < ratio && 0 <= d < width ==> #[trigger] at_row(
                block_fed(s, spec_min, ratio, head_dim, feeds).pending_score,
                width,
                i,
                d,
            ) == feeds[i].score_row[d],
{
    lemma_fed_rows(s, spec_min, ratio, head_dim, width, feeds, ratio - 1);
    let before = s.run(spec_min, ratio, head_dim, feeds, ratio - 1);
    let at = block_fed(s, spec_min, ratio, head_dim, feeds);
    assert(feeds[ratio - 1].kv_row.len() == width);
    assert((ratio - 1) * width + width == ratio * width) by (nonlinear_arith);
    assert forall|i: int, d: int| 0 <= i < ratio && 0 <= d < width implies #[trigger] at_row(
        at.pending_kv,
        width,
        i,
        d,
    ) == feeds[i].kv_row[d] by {
        if i < ratio - 1 {
            lemma_row_index(ratio - 1, width, i, d);
            assert(at_row(before.pending_kv, width, i, d) == feeds[i].kv_row[d]);
        }
    }
    assert forall|i: int, d: int| 0 <= i < ratio && 0 <= d < width implies #[trigger] at_row(
        at.pending_score,
        width,
        i,
        d,
    ) == feeds[i].score_row[d] by {
        if i < ratio - 1 {
            lemma_row_index(ratio - 1, width, i, d);
            assert(at_row(before.pending_score, width, i, d) == feeds[i].score_row[d]);
        }
    }
}

/// Where blocks do not overlap, dimension `dim` is pooled from that dimension of
/// each row that was fed into the block, scores with scores, in the order in which
/// the rows were fed.
pub proof fn law_blocks_pool_their_rows<T>(
    s: LayerView<T>,
    spec_min: Option<usize>,
    ratio: int,
    head_dim: int,
    feeds: Seq<Feed<T>>,
    dim: int,
    slot: int,
)
    requires
        0 < ratio <= usize::MAX,
        ratio != 4,
        0 <= dim < head_dim,
        0 <= slot < ratio,
        feeds.len() == ratio,
        s.pending_len == 0,
        s.pending_kv.len() == 0,
        s.pending_score.len() == 0,
        forall|i: int|
            0 <= i < feeds.len() ==> (#[trigger] feeds[i]).kv_row.len() == head_dim
                && feeds[i].score_row.len() == head_dim,
    ensures
        ({
            let full = block_fed(s, spec_min, ratio, head_dim, feeds);
            &&& full.pool_values(ratio, head_dim, dim).len() == ratio
            &&& full.pool_scores(ratio, head_dim, dim).len() == ratio
            &&& full.pool_values(ratio, head_dim, dim)[slot] == feeds[slot].kv_row[dim]
            &&& full.pool_scores(ratio, head_dim, dim)[slot] == feeds[slot].score_row[dim]
        }),
{
    lemma_block_rows(s, spec_min, ratio, head_dim, head_dim, feeds);
    let full = block_fed(s, spec_min, ratio, head_dim, feeds);
    assert(at_row(full.pending_kv, head_dim, slot, dim) == feeds[slot].kv_row[dim]);
    assert(at_row(full.pending_score, head_dim, slot, dim) == feeds[slot].score_row[dim]);
}

/// Where blocks overlap, each row has two halves. A block pools the second half of
/// its own rows, and before them the first half of the rows of the block before, if
/// there is one: so over two blocks every value that was fed is pooled once.
pub proof fn law_overlapping_blocks_pool_halves<T>(
    s: LayerView<T>,
    spec_min: Option<usize>,
    head_dim: int,
    first: Seq<Feed<T>>,
    second: Seq<Feed<T>>,
    dim: int,
    slot: int,
)
    requires
        0 <= dim < head_dim,
        0 <= slot < 4,
        first.len() == 4,
        second.len() == 4,
        s.pending_len == 0,
        s.pending_kv.len() == 0,
        s.pending_score.len() == 0,
        s.prev is None,
        forall|i: int|
            0 <= i < 4 ==> (#[trigger] first[i]).kv_row.len() == 2 * head_dim
                && first[i].score_row.len() == 2 * head_dim,
        forall|i: int|
            0 <= i < 4 ==> (#[trigger] second[i]).kv_row.len() == 2 * head_dim
                && second[i].score_row.len() == 2 * head_dim,
    ensures
        ({
            let one = block_fed(s, spec_min, 4, head_dim, first);
            let next = one.flushed(4, head_dim, first[3].row);
            let two = block_fed(next, spec_min, 4, head_dim, second);
            &&& one.pool_values(4, head_dim, dim).len() == 4
            &&& one.pool_scores(4, head_dim, dim).len() == 4
            &&& one.pool_values(4, head_dim, dim)[slot] == first[slot].kv_row[head_dim + dim]
            &&& one.pool_scores(4, head_dim, dim)[slot] == first[slot].score_row[head_dim + dim]
            &&& two.pool_values(4, head_dim, dim).len() == 8
            &&& two.pool_scores(4, head_dim, dim).len() == 8
            &&& two.pool_values(4, head_dim, dim)[slot] == first[slot].kv_row[dim]
            &&& two.pool_scores(4, head_dim, dim)[slot] == first[slot].score_row[dim]
            &&& two.pool_values(4, head_dim, dim)[4 + slot] == second[slot].kv_row[head_dim + dim]
            &&& two.pool_scores(4, head_dim, dim)[4 + slot] == second[slot].score_row[head_dim
                + dim]
        }),
{
    let width = 2 * head_dim;
    let one = block_fed(s, spec_min, 4, head_dim, first);
    let next = one.flushed(4, head_dim, first[3].row);
    let two = block_fed(next, spec_min, 4, head_dim, second);
    lemma_block_rows(s, spec_min, 4, head_dim, width, first);
    lemma_block_rows(next, spec_min, 4, head_dim, width, second);
    assert(at_row(one.pending_kv, width, slot, head_dim + dim) == first[slot].kv_row[head_dim + dim]);
    assert(at_row(one.pending_score, width, slot, head_dim + dim) == first[slot].score_row[head_dim + dim]);
    assert(at_row(one.pending_kv, width, slot, dim) == first[slot].kv_row[dim]);
    assert(at_row(one.pending_score, width, slot, dim) == first[slot].score_row[dim]);
    assert(at_row(two.pending_kv, width, slot, head_dim + dim) == second[slot].kv_row[head_dim + dim]);
    assert(at_row(two.pending_score, width, slot, head_dim + dim) == second[slot].score_row[head_dim + dim]);
    let at = slot * head_dim + dim;
    lemma_row_index(4, head_dim, slot, dim);
    assert(at / head_dim == slot && at % head_dim == dim) by {
        vstd::arithmetic::div_mod::lemma_fundamental_div_mod_converse(at, head_dim, slot, dim);
    }
    assert(leading(one.pending_kv, 4, width, head_dim)[at] == first[slot].kv_row[dim]);
    assert(leading(one.pending_score, 4, width, head_dim)[at] == first[slot].score_row[dim]);
}

proof fn lemma_rows_kept<T>(
    s: LayerView<T>,
    spec_min: Option<usize>,
    ratio: int,
    head_dim: int,
    feeds: Seq<Feed<T>>,
    n: int,
)
    requires
        0 < ratio <= usize::MAX,
        head_dim > 0,
        0 <= n <= feeds.len(),
        s.pending_len == 0,
        s.compressed.len() == 0,
        forall|i: int| 0 <= i < feeds.len() ==> (#[trigger] feeds[i]).row.len() == head_dim,
    ensures
        ({
            let at = s.run(spec_min, ratio, head_dim, feeds, n);
            &&& at.pending_len == n % ratio
            &&& at.compressed.len() == (n / ratio) * head_dim
            &&& forall|b: int, d: int|
                0 <= b < n / ratio && 0 <= d < head_dim ==> #[trigger] at.compressed[b * head_dim
                    + d] == feeds[(b + 1) * ratio - 1].row[d]
        }),
    decreases n,
{
    if n > 0 {
        lemma_rows_kept(s, spec_min, ratio, head_dim, feeds, n - 1);
        let before = s.run(spec_min, ratio, head_dim, feeds, n - 1);
        let at = s.run(spec_min, ratio, head_dim, feeds, n);
        let q = (n - 1) / ratio;
        let r = (n - 1) % ratio;
        vstd::arithmetic::div_mod::lemma_fundamental_div_mod(n - 1, ratio);
        assert(feeds[n - 1].row.len() == head_dim);
        assert(ratio * q == q * ratio) by (nonlinear_arith);
        if r + 1 == ratio {
            assert(n == (q + 1) * ratio + 0) by (nonlinear_arith)
                requires
                    n - 1 == ratio * q + r,
                    r + 1 == ratio,
            ;
            vstd::arithmetic::div_mod::lemma_fundamental_div_mod_converse(n, ratio, q + 1, 0);
            assert((q + 1) * head_dim == q * head_dim + head_dim) by (nonlinear_arith);
            assert forall|b: int, d: int| 0 <= b < n / ratio && 0 <= d < head_dim implies
                #[trigger] at.compressed[b * head_dim + d] == feeds[(b + 1) * ratio - 1].row[d] by {
                if b < q {
                    lemma_row_index(q, head_dim, b, d);
                    assert(before.compressed[b * head_dim + d] == feeds[(b + 1) * ratio
                        - 1].row[d]);
                } else {
                    assert(b * head_dim + d == before.compressed.len() + d);
                }
            }
        } else {
            assert(n == q * ratio + (r + 1));
            vstd::arithmetic::div_mod::lemma_fundamental_div_mod_converse(n, ratio, q, r + 1);
        }
    } else {
        assert(0int / ratio == 0 && 0int % ratio == 0) by (nonlinear_arith)
            requires
                ratio > 0,
        ;
        assert(0 * head_dim == 0) by (nonlinear_arith);
    }
}

/// A compressor that starts afresh keeps one row for each full block, in the order
/// of the blocks: the row that the last position of the block brought.
pub proof fn law_full_blocks_become_rows<T>(
    s: LayerView<T>,
    spec_min: Option<usize>,
    ratio: int,
    head_dim: int,
    feeds: Seq<Feed<T>>,
    block: int,
    dim: int,
)
    requires
        0 < ratio <= usize::MAX,
        head_dim > 0,
        s.pending_len == 0,
        s.compressed.len() == 0,
        forall|i: int| 0 <= i < feeds.len() ==> (#[trigger] feeds[i]).row.len() == head_dim,
        0 <= block < feeds.len() as int / ratio,
        0 <= dim < head_dim,
    ensures
        ({
            let at = s.run(spec_min, ratio, head_dim, feeds, feeds.len() as int);
            &&& at.pending_len == feeds.len() as int % ratio
            &&& at.compressed.len() == (feeds.len() as int / ratio) * head_dim
            &&& at.compressed[block * head_dim + dim] == feeds[(block + 1) * ratio - 1].row[dim]
        }),
{
    lemma_rows_kept(s, spec_min, ratio, head_dim, feeds, feeds.len() as int);
}

/// A position sees whole compressed rows from the first on, at most so many, and
/// only such as end with its own position or before; it misses none that it may see.
pub proof fn law_visible_rows_are_past<T>(
    s: LayerView<T>,
    ratio: int,
    head_dim: int,
    token_pos: int,
    row: int,
    dim: int,
)
    requires
        ratio > 0,
        head_dim > 0,
        token_pos >= 0,
        0 <= dim < head_dim,
        0 <= row,
        row * head_dim + dim < s.compressed.len(),
        s.compressed.len() % (head_dim as nat) == 0,
    ensures
        ({
            let seen = s.visible(ratio, head_dim, token_pos);
            if (row + 1) * ratio <= token_pos + 1 && row < 512 {
                row * head_dim + dim < seen.len() && seen[row * head_dim + dim]
                    == s.compressed[row * head_dim + dim]
            } else {
                row * head_dim + dim >= seen.len()
            }
        }),
{
    let len = s.compressed.len() as int;
    let blocks = len / head_dim;
    let complete = (token_pos + 1) / ratio;
    let count = s.visible_count(ratio, head_dim, token_pos);
    vstd::arithmetic::div_mod::lemma_fundamental_div_mod(len, head_dim);
    vstd::arithmetic::div_mod::lemma_fundamental_div_mod(token_pos + 1, ratio);
    assert(row < blocks) by (nonlinear_arith)
        requires
            len == head_dim * blocks,
            row * head_dim + dim < len,
            0 <= dim,
            head_dim > 0,
    ;
    assert((row + 1) * ratio <= token_pos + 1 <==> row < complete) by (nonlinear_arith)
        requires
            token_pos + 1 == ratio * complete + (token_pos + 1) % ratio,
            0 <= (token_pos + 1) % ratio < ratio,
    ;
    assert(0 <= count);
    assert(count * head_dim <= len) by (nonlinear_arith)
        requires
            count <= blocks,
            len == head_dim * blocks,
            head_dim > 0,
    ;
    if row < count {
        lemma_row_index(count, head_dim, row, dim);
    } else {
        assert(row * head_dim >= count * head_dim) by (nonlinear_arith)
            requires
                row >= count,
                head_dim > 0,
        ;
    }
}

/// The first position of a sequence starts its layer anew: nothing was fed and
/// nothing compressed. Any other goes on where the layer stands, and no other layer
/// is touched.
pub proof fn law_first_position_starts_anew<T>(
    s: StatesView<T>,
    layer: usize,
    token_pos: usize,
    other: usize,
)
    requires
        other != layer,
    ensures
        ({
            let state = s.entered(layer, token_pos);
            let after = s.with_layer(layer, state);
            &&& token_pos == 0 || !s.layers.dom().contains(layer) ==> {
                &&& state.pending_len == 0
                &&& state.pending_kv.len() == 0
                &&& state.pending_score.len() == 0
                &&& state.compressed.len() == 0
                &&& state.prev is None
                &&& state.last_fed_pos is None
                &&& state.undo.len() == 0
            }
            &&& token_pos > 0 && s.layers.dom().contains(layer) ==> state == s.layers[layer]
            &&& !s.layers.dom().contains(layer) ==> state.coff == coff_of(ratio_of(layer as int) as int)
            &&& after.layers.dom().contains(other) == s.layers.dom().contains(other)
            &&& s.layers.dom().contains(other) ==> after.layers[other] == s.layers[other]
            &&& after.layers[layer] == state
            &&& after.spec_min == s.spec_min
        }),
{
}

/// Feeding a row puts it behind the rows that wait and changes nothing that was
/// compressed; what it takes to undo it is kept where positions may be taken back,
/// once for each position.
pub proof fn law_rows_wait_in_order<T>(
    s: LayerView<T>,
    spec_min: Option<usize>,
    token_pos: usize,
    kv_row: Seq<T>,
    score_row: Seq<T>,
)
    requires
        s.pending_len < usize::MAX,
        s.compressed.len() <= usize::MAX,
    ensures
        ({
            let after = s.fed(spec_min, token_pos, kv_row, score_row);
            &&& after.pending_len == s.pending_len + 1
            &&& after.pending_kv.take(s.pending_kv.len() as int) == s.pending_kv
            &&& after.pending_kv.skip(s.pending_kv.len() as int) == kv_row
            &&& after.pending_score.take(s.pending_score.len() as int) == s.pending_score
            &&& after.pending_score.skip(s.pending_score.len() as int) == score_row
            &&& after.compressed == s.compressed
            &&& after.prev == s.prev
            &&& after.has_fed(token_pos as int)
            &&& !after.has_fed(token_pos + 1)
            &&& spec_min is None ==> after.undo == s.undo
            &&& (spec_min matches Some(min) && token_pos < min) ==> after.undo == s.undo
            &&& (spec_min matches Some(min) && token_pos >= min && s.undo.len() == 0) ==> {
                &&& after.undo.len() == 1
                &&& after.undo[0].pos == token_pos
                &&& after.undo[0].pending_kv == s.pending_kv
                &&& after.undo[0].pending_score == s.pending_score
                &&& after.undo[0].pending_len == s.pending_len
                &&& after.undo[0].prev == s.prev
                &&& after.undo[0].compressed_len == s.compressed.len()
                &&& after.undo[0].last_fed_pos == s.last_fed_pos
            }
        }),
{
    let after = s.fed(spec_min, token_pos, kv_row, score_row);
    assert(after.pending_kv.take(s.pending_kv.len() as int) =~= s.pending_kv);
    assert(after.pending_kv.skip(s.pending_kv.len() as int) =~= kv_row);
    assert(after.pending_score.take(s.pending_score.len() as int) =~= s.pending_score);
    assert(after.pending_score.skip(s.pending_score.len() as int) =~= score_row);
}

/// A session that is saved and brought back sees the same rows, waits with the same
/// rows and knows the same positions in every layer; only what could be taken back
/// is gone. So it is with a commit.
pub proof fn law_sessions_go_on<T>(
    s: StatesView<T>,
    layer: usize,
    ratio: int,
    head_dim: int,
    token_pos: int,
    dim: int,
)
    requires
        s.layers.dom().contains(layer),
    ensures
        ({
            let before = s.layers[layer];
            let saved = s.exported()[layer];
            let kept = s.committed().layers[layer];
            &&& saved.visible(ratio, head_dim, token_pos) == before.visible(
                ratio,
                head_dim,
                token_pos,
            )
            &&& saved.has_fed(token_pos) == before.has_fed(token_pos)
            &&& saved.pending_len == before.pending_len
            &&& saved.pool_values(ratio, head_dim, dim) == before.pool_values(ratio, head_dim, dim)
            &&& saved.pool_scores(ratio, head_dim, dim) == before.pool_scores(ratio, head_dim, dim)
            &&& saved.coff == before.coff
            &&& saved.undo.len() == 0
            &&& kept.visible(ratio, head_dim, token_pos) == before.visible(
                ratio,
                head_dim,
                token_pos,
            )
            &&& kept.has_fed(token_pos) == before.has_fed(token_pos)
            &&& kept.pending_len == before.pending_len
            &&& kept.pool_values(ratio, head_dim, dim) == before.pool_values(ratio, head_dim, dim)
            &&& kept.pool_scores(ratio, head_dim, dim) == before.pool_scores(ratio, head_dim, dim)
            &&& kept.undo.len() == 0
            &&& s.committed().spec_min is None
        }),
        forall|other: usize| #[trigger]
            s.exported().dom().contains(other) == s.layers.dom().contains(other),
        forall|other: usize| #[trigger]
            s.committed().layers.dom().contains(other) == s.layers.dom().contains(other),
{
}

/// The tensors of a compressor are found by the ends of their names, all four or
/// none.
pub proof fn law_compressors_go_by_name(b: BlockView)
    ensures
        compressor_tensors(b) matches Ok(Some(found)) ==> {
            &&& ends_with_bytes(name_text(found.wkv.name), "attn.compressor.wkv.weight".spec_bytes())
            &&& ends_with_bytes(
                name_text(found.wgate.name),
                "attn.compressor.wgate.weight".spec_bytes(),
            )
            &&& ends_with_bytes(name_text(found.ape.name), "attn.compressor.ape".spec_bytes())
            &&& ends_with_bytes(
                name_text(found.norm.name),
                "attn.compressor.norm.weight".spec_bytes(),
            )
        },
{
    lemma_by_suffix(b, "attn.compressor.wkv.weight".spec_bytes());
    lemma_by_suffix(b, "attn.compressor.wgate.weight".spec_bytes());
    lemma_by_suffix(b, "attn.compressor.ape".spec_bytes());
    lemma_by_suffix(b, "attn.compressor.norm.weight".spec_bytes());
}

proof fn lemma_by_suffix(b: BlockView, suffix: Seq<u8>)
    ensures
        by_suffix(b, suffix) matches Ok(Some(t)) ==> ends_with_bytes(name_text(t.name), suffix),
{
    let wanted = |t: TensorView| ends_with_bytes(name_text(t.name), suffix);
    crate::compute::quant_block::law_search_finds_the_first(b, wanted);
    assert(by_suffix(b, suffix) == b.first(wanted));
}

/// A projection of the compressor goes over the whole tensor: with the scales that
/// carry its name where it is of FP8 weights, and as it is otherwise.
pub proof fn law_projections_go_over_their_tensor(
    b: BlockView,
    t: TensorView,
    input_len: int,
    output_len: int,
)
    requires
        t.dims.len() == 2,
    ensures
        compressor_projection(b, t, input_len, output_len) matches Ok(plan) ==> match plan {
            GemvView::Fp8(rows) => t.quant_format == QUANT_DEEPSEEK_FP8_E4M3 && (fp8_scale_of(
                b,
                t,
            ) matches Ok(scale) && fp8_whole(t, scale, input_len, output_len) == Ok::<
                Fp8RowsView,
                ComputeError,
            >(rows)),
            GemvView::Bf16(rows) => t.quant_format == QUANT_DEEPSEEK_BF16_AUX && rows.data == t.data
                && rows.cols == t.dims[1] && rows.row_start == 0 && rows.row_end == t.dims[0],
            GemvView::Int4(rows) => t.quant_format == 4 && rows.data == t.data && rows.cols
                == t.dims[1] && rows.rows == t.dims[0] && rows.scale_bits == t.scale_bits
                && rows.zero_point_bits == t.zero_point_bits,
        },
{
}

/// What `pool_slots` returns of the rows that wait: where blocks overlap, of each
/// row the second half, behind the first halves of the block before; otherwise each
/// row as it is.
pub proof fn law_pool_slots<T: Copy>(
    state: &CompressorLayerState<T>,
    ratio: usize,
    head_dim: usize,
    dim: usize,
    slots: (Vec<T>, Vec<T>),
    j: int,
)
    requires
        state@.wf(ratio as int, head_dim as int),
        state.pending_len == ratio,
        dim < head_dim,
        0 <= j < ratio,
        call_ensures(
            CompressorLayerState::<T>::pool_slots,
            (state, ratio, head_dim, dim),
            slots,
        ),
    ensures
        slots.0@.len() == slots.1@.len(),
        ratio != 4 ==> {
            &&& slots.0@.len() == ratio
            &&& slots.0@[j] == state.pending_score@[j * head_dim + dim]
            &&& slots.1@[j] == state.pending_kv@[j * head_dim + dim]
        },
        ratio == 4 ==> {
            let at = slots.0@.len() - 4;
            &&& at == if state.prev_first_half is Some {
                4int
            } else {
                0
            }
            &&& slots.0@[at + j] == state.pending_score@[j * (2 * head_dim) + head_dim + dim]
            &&& slots.1@[at + j] == state.pending_kv@[j * (2 * head_dim) + head_dim + dim]
            &&& state.prev_first_half matches Some(prev) ==> slots.0@[j] == prev.1@[j * head_dim
                + dim] && slots.1@[j] == prev.0@[j * head_dim + dim]
        },
{
}

/// What `flush` leaves: one more compressed row, no row that waits, and, where
/// blocks overlap, the first half of each row for the next block.
pub proof fn law_flush<T: Copy>(
    state: &mut CompressorLayerState<T>,
    ratio: usize,
    head_dim: usize,
    row: &[T],
    j: int,
    dim: int,
)
    requires
        state@.wf(ratio as int, head_dim as int),
        state.pending_len == ratio,
        0 <= j < ratio,
        0 <= dim < head_dim,
        call_ensures(CompressorLayerState::<T>::flush, (state, ratio, head_dim, row), ()),
    ensures
        final(state).compressed@ == old(state).compressed@ + row@,
        final(state).pending_len == 0,
        final(state).pending_kv@.len() == 0,
        final(state).pending_score@.len() == 0,
        ratio == 4 ==> (final(state).prev_first_half matches Some(prev) && prev.0@[j * head_dim
            + dim] == old(state).pending_kv@[j * (2 * head_dim) + dim] && prev.1@[j * head_dim
            + dim] == old(state).pending_score@[j * (2 * head_dim) + dim]),
        ratio != 4 ==> halves(final(state).prev_first_half) == halves(old(state).prev_first_half),
{
    let keep = head_dim as int;
    let i = j * keep + dim;
    assert(0 <= i < ratio * keep) by (nonlinear_arith)
        requires
            i == j * keep + dim,
            0 <= j < ratio,
            0 <= dim < keep,
    ;
    assert(j * keep == keep * j) by (nonlinear_arith);
    vstd::arithmetic::div_mod::lemma_fundamental_div_mod_converse(i, keep, j, dim);
    if ratio == 4 {
        let kv = leading(old(state)@.pending_kv, ratio as int, 2 * keep, keep);
        let score = leading(old(state)@.pending_score, ratio as int, 2 * keep, keep);
        assert(final(state)@.prev == Some((kv, score)));
        assert(kv[i] == old(state)@.pending_kv[j * (2 * keep) + dim]);
        assert(score[i] == old(state)@.pending_score[j * (2 * keep) + dim]);
    }
}

/// What `feed` leaves of all layers: the row behind those that wait in its layer, and
/// every other layer as it was; a block is full with as many rows as the layer pools.
pub proof fn law_states_feed<T: Copy>(
    states: &mut CompressorStates<T>,
    layer: usize,
    token_pos: usize,
    kv_row: &[T],
    score_row: &[T],
    full: bool,
    other: usize,
)
    requires
        states.wf(),
        states@.layers.dom().contains(layer),
        states@.layers[layer].pending_len < usize::MAX,
        other != layer,
        call_ensures(
            CompressorStates::<T>::feed,
            (states, layer, token_pos, kv_row, score_row),
            full,
        ),
    ensures
        final(states)@.layers[layer].pending_kv == old(states)@.layers[layer].pending_kv + kv_row@,
        final(states)@.layers[layer].pending_score == old(states)@.layers[layer].pending_score
            + score_row@,
        final(states)@.layers[layer].pending_len == old(states)@.layers[layer].pending_len + 1,
        final(states)@.layers[layer].last_fed_pos == Some(token_pos),
        final(states)@.layers[layer].compressed == old(states)@.layers[layer].compressed,
        full == (final(states)@.layers[layer].pending_len == ratio_of(layer as int)),
        final(states)@.layers.dom().contains(other) == old(states)@.layers.dom().contains(other),
        old(states)@.layers.dom().contains(other) ==> final(states)@.layers[other] == old(
            states,
        )@.layers[other],
{
}

} // verus!
