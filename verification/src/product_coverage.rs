//! What products compute: every block of every output, from the first block of
//! the inner axis to the last.

use crate::carriage::{
    begins, holds_on, lemma_added_transfer, lemma_append_copies, lemma_append_phase,
    lemma_holds_on, lemma_still_exchanges, lemma_still_schedules, lemma_still_stands,
    makes_exchange, schedules, sends, sources_agree, stands_at, stands_in,
};
use crate::copies::{on_tile, spans_of, view_copies};
use crate::deferred::{place_from, Movement};
use crate::gemm::{
    block_range, column_interleaved, column_outputs_from, fresh_pass, gemm_column,
    gemm_columns_from, gemm_output, gemm_outputs_from, gemm_pass, gemm_passes_from, holds_columns,
    left_from, left_operand, loading, local_block, packed_copies_from, pass_provenance,
    remote_block, resident_right, right_block, GemmKernels, GemmModel, GemmPlan, Staged,
};
use crate::kernels::{append_kernel, append_kernels_from, is_batched_product, matrix_runs_below};
use crate::lookup::{
    first_on, holds_right_block, local_shard, prefer_local, resides, right_shards_from,
};
use crate::low::{
    ExchangeOrder, KernelRunId, LocalCopy, LocalCopyId, LowShardId, RunModel, ShardModel, TileWork,
    ViewModel, WorkProvenance, WorkReason,
};
use crate::phase::{add_transfer, append_ordered_phase};
use crate::pointwise::operator_run;
use crate::state::{
    append_copies_from, append_single_kernel, append_single_kernels_from, narrow_view, StateModel,
};
use crate::target::Target;
use crate::tensor::{ByteSpan, MemoryClass};
use vstd::prelude::*;

verus! {

// ---------------------------------------------------------------- work of a pass

/// The work of a pass still does what it did before.
pub open spec fn work_grows(a: GemmModel, b: GemmModel) -> bool {
    &&& forall|source: ViewModel, destination: ViewModel|
        sends(a.transfers, source, destination) ==> #[trigger] sends(
            b.transfers,
            source,
            destination,
        )
    &&& begins(b.copies, a.copies)
    &&& begins(b.runs, a.runs)
}

/// A view holds one block of the inner axis.
pub open spec fn holds_inner(view: ViewModel, plan: GemmPlan, inner: (u32, u32)) -> bool {
    let axis = plan.left_rank - 1;
    &&& 0 <= axis < view.extents.len()
    &&& view.extents[axis].start == inner.0
    &&& view.extents[axis].physical_end == inner.1
}

/// The left operands of a pass hold its block of the inner axis.
pub open spec fn lefts_hold(g: GemmModel, plan: GemmPlan, inner: (u32, u32)) -> bool {
    forall|i: int| 0 <= i < g.left.len() ==> holds_inner((#[trigger] g.left[i]).1, plan, inner)
}

/// The copies that pack a block into storage on a tile.
pub open spec fn packing<M: Target>(
    target: &M,
    shards: Seq<ShardModel>,
    block: ViewModel,
    into: LowShardId,
    tile: u16,
) -> Option<Seq<(u16, LocalCopy)>> {
    match spans_of(target, shards, block, ExchangeOrder::Physical) {
        Err(_) => None,
        Ok(spans) => match packed_copies_from(
            spans,
            block.shard,
            into,
            tile,
            0,
            0,
            Seq::empty(),
        ) {
            Err(_) => None,
            Ok(copies) => Some(copies),
        },
    }
}

/// The weights of a run are a block in place, or a pass packs or sends the
/// block there.
pub open spec fn weights_ready<M: Target>(
    target: &M,
    shards: Seq<ShardModel>,
    g: GemmModel,
    tile: u16,
    block: ViewModel,
    weights: ViewModel,
) -> bool {
    ||| weights == block && resides(shards, block.shard, tile)
    ||| resides(shards, block.shard, tile) && (match packing(
        target,
        shards,
        block,
        weights.shard,
        tile,
    ) {
        Some(copies) => stands_in(g.copies, copies),
        None => false,
    })
    ||| sends(g.transfers, block, weights)
}

/// The run that computes one block of an output.
pub open spec fn block_run(
    plan: GemmPlan,
    kernels: GemmKernels,
    first: bool,
    class: MemoryClass,
    left: ViewModel,
    weights: ViewModel,
    output: ViewModel,
) -> RunModel {
    operator_run(
        WorkProvenance {
            operation: plan.source,
            value: Some(plan.output),
            reason: WorkReason::OperatorKernel,
        },
        loading(
            if first {
                kernels.initialize
            } else {
                kernels.accumulate
            },
            class,
        ),
        seq![seq![left], seq![weights]],
        output,
        kernels.requirements,
    )
}

/// One block of a product: an output and the ranges of inner axis and columns.
pub struct Block {
    pub output: LowShardId,
    pub inner: (u32, u32),
    pub columns: (u32, u32),
}

/// The operands of the run of a block.
pub struct BlockOperands {
    pub left: ViewModel,
    pub weights: ViewModel,
    /// The shard of the right operand that holds the block.
    pub right: LowShardId,
}

/// The part of the output that a block stands for.
pub open spec fn block_output(shards: Seq<ShardModel>, plan: GemmPlan, block: Block) -> Option<
    ViewModel,
> {
    match narrow_view(
        shards,
        block.output,
        seq![((plan.output_rank - 1) as usize, block.columns.0, block.columns.1)],
    ) {
        Ok(view) => Some(view),
        Err(_) => None,
    }
}

/// The operands fit a block, and belong to known shards.
pub open spec fn operands_fit(
    shards: Seq<ShardModel>,
    plan: GemmPlan,
    rights: Seq<LowShardId>,
    block: Block,
    operands: BlockOperands,
) -> bool {
    &&& block.output.0 < shards.len()
    &&& operands.right.0 < shards.len()
    &&& operands.weights.shard.0 < shards.len()
    &&& rights.contains(operands.right)
    &&& holds_right_block(shards, operands.right, block.columns, block.inner)
    &&& holds_inner(operands.left, plan, block.inner)
    &&& block_output(shards, plan, block) is Some
    &&& right_block(shards, operands.right, block.columns, block.inner) is Ok
}

/// The run of a block with its operands.
pub open spec fn run_of(
    shards: Seq<ShardModel>,
    plan: GemmPlan,
    kernels: GemmKernels,
    block: Block,
    operands: BlockOperands,
) -> RunModel {
    block_run(
        plan,
        kernels,
        block.inner.0 == 0,
        shards[operands.weights.shard.0 as int].tensor_type.format.layout.memory_class,
        operands.left,
        operands.weights,
        block_output(shards, plan, block)->Some_0,
    )
}

/// A pass runs a block with the given operands.
pub open spec fn runs_with<M: Target>(
    target: &M,
    shards: Seq<ShardModel>,
    plan: GemmPlan,
    kernels: GemmKernels,
    rights: Seq<LowShardId>,
    g: GemmModel,
    block: Block,
    operands: BlockOperands,
    i: int,
) -> bool {
    let tile = shards[block.output.0 as int].tile;
    &&& operands_fit(shards, plan, rights, block, operands)
    &&& 0 <= i < g.runs.len()
    &&& g.runs[i] == (tile, run_of(shards, plan, kernels, block, operands))
    &&& weights_ready(
        target,
        shards,
        g,
        tile,
        right_block(shards, operands.right, block.columns, block.inner)->Ok_0,
        operands.weights,
    )
}

/// A pass runs a block.
pub open spec fn runs_block<M: Target>(
    target: &M,
    shards: Seq<ShardModel>,
    plan: GemmPlan,
    kernels: GemmKernels,
    rights: Seq<LowShardId>,
    g: GemmModel,
    block: Block,
) -> bool {
    exists|operands: BlockOperands, i: int| #[trigger]
        runs_with(target, shards, plan, kernels, rights, g, block, operands, i)
}

proof fn lemma_operands_still_fit(
    shards: Seq<ShardModel>,
    more: Seq<ShardModel>,
    plan: GemmPlan,
    kernels: GemmKernels,
    rights: Seq<LowShardId>,
    block: Block,
    operands: BlockOperands,
)
    requires
        begins(more, shards),
        operands_fit(shards, plan, rights, block, operands),
    ensures
        operands_fit(more, plan, rights, block, operands),
        run_of(more, plan, kernels, block, operands) == run_of(
            shards,
            plan,
            kernels,
            block,
            operands,
        ),
        right_block(more, operands.right, block.columns, block.inner) == right_block(
            shards,
            operands.right,
            block.columns,
            block.inner,
        ),
        right_block(shards, operands.right, block.columns, block.inner)->Ok_0.shard
            == operands.right,
        more[block.output.0 as int] == shards[block.output.0 as int],
{
    assert(more[block.output.0 as int] == shards[block.output.0 as int]);
    assert(more[operands.right.0 as int] == shards[operands.right.0 as int]);
    assert(more[operands.weights.shard.0 as int] == shards[operands.weights.shard.0 as int]);
}

proof fn lemma_weights_still_ready<M: Target>(
    target: &M,
    shards: Seq<ShardModel>,
    more: Seq<ShardModel>,
    g: GemmModel,
    h: GemmModel,
    tile: u16,
    block: ViewModel,
    weights: ViewModel,
)
    requires
        begins(more, shards),
        work_grows(g, h),
        block.shard.0 < shards.len(),
        weights_ready(target, shards, g, tile, block, weights),
    ensures
        weights_ready(target, more, h, tile, block, weights),
{
    assert(more[block.shard.0 as int] == shards[block.shard.0 as int]);
    if let Some(copies) = packing(target, shards, block, weights.shard, tile) {
        if stands_in(g.copies, copies) {
            lemma_still_stands(g.copies, h.copies, copies);
        }
    }
}

proof fn lemma_still_runs<M: Target>(
    target: &M,
    shards: Seq<ShardModel>,
    more: Seq<ShardModel>,
    plan: GemmPlan,
    kernels: GemmKernels,
    rights: Seq<LowShardId>,
    g: GemmModel,
    h: GemmModel,
    block: Block,
)
    requires
        begins(more, shards),
        work_grows(g, h),
        runs_block(target, shards, plan, kernels, rights, g, block),
    ensures
        runs_block(target, more, plan, kernels, rights, h, block),
{
    let (operands, i) = choose|operands: BlockOperands, i: int| #[trigger]
        runs_with(target, shards, plan, kernels, rights, g, block, operands, i);
    lemma_operands_still_fit(shards, more, plan, kernels, rights, block, operands);
    lemma_weights_still_ready(
        target,
        shards,
        more,
        g,
        h,
        shards[block.output.0 as int].tile,
        right_block(shards, operands.right, block.columns, block.inner)->Ok_0,
        operands.weights,
    );
    assert(h.runs[i] == g.runs[i]);
    assert(runs_with(target, more, plan, kernels, rights, h, block, operands, i));
}

proof fn lemma_work_grows_on(a: GemmModel, b: GemmModel, c: GemmModel)
    requires
        work_grows(a, b),
        work_grows(b, c),
    ensures
        work_grows(a, c),
{
    assert forall|source: ViewModel, destination: ViewModel|
        sends(a.transfers, source, destination) implies #[trigger] sends(
        c.transfers,
        source,
        destination,
    ) by {
        assert(sends(b.transfers, source, destination));
    }
    assert forall|i: int| 0 <= i < a.copies.len() implies #[trigger] c.copies[i]
        == a.copies[i] by {
        assert(b.copies[i] == a.copies[i]);
    }
    assert forall|i: int| 0 <= i < a.runs.len() implies #[trigger] c.runs[i] == a.runs[i] by {
        assert(b.runs[i] == a.runs[i]);
    }
}

pub(crate) proof fn lemma_begins_on<A>(a: Seq<A>, b: Seq<A>, c: Seq<A>)
    requires
        begins(b, a),
        begins(c, b),
    ensures
        begins(c, a),
{
    assert forall|i: int| 0 <= i < a.len() implies #[trigger] c[i] == a[i] by {
        assert(b[i] == a[i]);
    }
}

// ---------------------------------------------------------------- operands

pub(crate) proof fn lemma_place_from<M: Target>(
    target: &M,
    shards: Seq<ShardModel>,
    mappings: Seq<(ViewModel, ViewModel)>,
    tile: u16,
    order: ExchangeOrder,
    k: int,
    done: Movement,
)
    requires
        sources_agree(done.0),
    ensures
        match place_from(target, shards, mappings, tile, order, k, done) {
            Err(_) => true,
            Ok(more) => {
                &&& sources_agree(more.0)
                &&& begins(more.1, done.1)
                &&& forall|a: ViewModel, b: ViewModel|
                    sends(done.0, a, b) ==> #[trigger] sends(more.0, a, b)
            },
        },
    decreases mappings.len() - k,
{
    if k < mappings.len() {
        if resides(shards, mappings[k].0.shard, tile) {
            if let Ok(copies) = view_copies(
                target,
                shards,
                mappings[k].0,
                mappings[k].1,
                order,
            ) {
                let next = done.1 + on_tile(copies, tile);
                lemma_place_from(target, shards, mappings, tile, order, k + 1, (done.0, next));
                if let Ok(more) = place_from(target, shards, mappings, tile, order, k, done) {
                    lemma_begins_on(done.1, next, more.1);
                }
            }
        } else {
            let next = add_transfer(done.0, mappings[k].0, mappings[k].1);
            lemma_added_transfer(done.0, mappings[k].0, mappings[k].1);
            lemma_place_from(target, shards, mappings, tile, order, k + 1, (next, done.1));
            if let Ok(more) = place_from(target, shards, mappings, tile, order, k, done) {
                assert forall|a: ViewModel, b: ViewModel| sends(done.0, a, b) implies
                    #[trigger] sends(more.0, a, b) by {
                    assert(sends(next, a, b));
                }
            }
        }
    }
}

/// Only shards were added.
pub open spec fn only_adds_shards(s: StateModel, t: StateModel) -> bool {
    begins(t.shards, s.shards) && t == (StateModel { shards: t.shards, ..s })
}

proof fn lemma_left_from(left: Seq<(u16, ViewModel)>, tile: u16, i: int)
    requires
        0 <= i,
    ensures
        left_from(left, tile, i) matches Some(view) ==> exists|k: int|
            0 <= k < left.len() && (#[trigger] left[k]).1 == view,
    decreases left.len() - i,
{
    if i < left.len() {
        if left[i].0 == tile {
            assert(left[i].1 == left_from(left, tile, i)->Some_0);
        } else {
            lemma_left_from(left, tile, i + 1);
        }
    }
}

proof fn lemma_left_operand<M: Target>(
    target: &M,
    s: StateModel,
    plan: GemmPlan,
    tile: u16,
    inner: (u32, u32),
    g: GemmModel,
)
    requires
        sources_agree(g.transfers),
        lefts_hold(g, plan, inner),
        plan.left_rank > 0,
    ensures
        match left_operand(target, s, plan, tile, inner, g) {
            Err(_) => true,
            Ok((t, (h, view))) => {
                &&& only_adds_shards(s, t)
                &&& work_grows(g, h)
                &&& h.runs == g.runs
                &&& sources_agree(h.transfers)
                &&& lefts_hold(h, plan, inner)
                &&& holds_inner(view, plan, inner)
            },
        },
{
    lemma_left_from(g.left, tile, 0);
    match left_from(g.left, tile, 0) {
        Some(view) => {
            let k = choose|k: int| 0 <= k < g.left.len() && (#[trigger] g.left[k]).1 == view;
            assert(holds_inner(g.left[k].1, plan, inner));
        },
        None => {
            let axis = (plan.left_rank - 1) as usize;
            let ranges = seq![(axis, inner.0, inner.1)];
            if let Ok(id) = local_shard(s, plan.left, tile) {
                if let Ok(view) = narrow_view(s.shards, id, ranges) {
                    reveal_with_fuel(crate::state::narrow_from, 2);
                    assert(holds_inner(view, plan, inner));
                }
            }
            if let Ok((t, (h, view))) = left_operand(target, s, plan, tile, inner, g) {
                if crate::lookup::converted_from(s, plan.left) is Some {
                    let id = local_shard(s, plan.left, tile)->Ok_0;
                    let whole = narrow_view(s.shards, id, ranges)->Ok_0;
                    let staging = LowShardId(s.shards.len() as u32);
                    let source = crate::lookup::converted_from(s, plan.left)->Some_0;
                    let ids = crate::lookup::value_shards(t, source)->Ok_0;
                    let parts = crate::lookup::intersecting(t.shards, ids, whole.extents, tile);
                    lemma_place_from(
                        target,
                        t.shards,
                        crate::gemm::onto(parts, staging),
                        tile,
                        ExchangeOrder::Semantic,
                        0,
                        (g.transfers, g.copies),
                    );
                }
                assert(h.left == g.left.push((tile, view)));
                assert forall|i: int| 0 <= i < h.left.len() implies holds_inner(
                    (#[trigger] h.left[i]).1,
                    plan,
                    inner,
                ) by {
                    if i < g.left.len() {
                        assert(h.left[i] == g.left[i]);
                    }
                }
            }
        },
    }
}

proof fn lemma_packed_copies(
    spans: Seq<ByteSpan>,
    source: LowShardId,
    destination: LowShardId,
    tile: u16,
    k: int,
    offset: int,
    start: Seq<(u16, LocalCopy)>,
    done: Seq<(u16, LocalCopy)>,
)
    ensures
        match packed_copies_from(spans, source, destination, tile, k, offset, done) {
            Err(e) => packed_copies_from(
                spans,
                source,
                destination,
                tile,
                k,
                offset,
                start + done,
            ) is Err,
            Ok(copies) => packed_copies_from(
                spans,
                source,
                destination,
                tile,
                k,
                offset,
                start + done,
            ) == Ok::<Seq<(u16, LocalCopy)>, crate::low::LowLoweringError>(start + copies),
        },
    decreases spans.len() - k,
{
    if k < spans.len() && offset + spans[k].bytes <= u32::MAX {
        let copy = (
            tile,
            LocalCopy {
                source,
                source_offset: spans[k].offset,
                destination,
                destination_offset: offset as u32,
                bytes: spans[k].bytes,
                pattern: crate::low::LocalCopyPattern::Contiguous,
            },
        );
        lemma_packed_copies(
            spans,
            source,
            destination,
            tile,
            k + 1,
            offset + spans[k].bytes,
            start,
            done.push(copy),
        );
        assert(start + done.push(copy) =~= (start + done).push(copy));
    }
}

proof fn lemma_resident_right<M: Target>(
    target: &M,
    s: StateModel,
    plan: GemmPlan,
    interleaved: bool,
    tile: u16,
    column: u32,
    right: LowShardId,
    view: ViewModel,
    g: GemmModel,
)
    requires
        sources_agree(g.transfers),
        right.0 < s.shards.len(),
        view.shard == right,
    ensures
        match resident_right(target, s, plan, interleaved, tile, column, right, view, g) {
            Err(_) => true,
            Ok((t, (h, weights))) => {
                &&& only_adds_shards(s, t)
                &&& work_grows(g, h)
                &&& h.runs == g.runs
                &&& h.left == g.left
                &&& sources_agree(h.transfers)
                &&& weights.shard.0 < t.shards.len()
                &&& weights_ready(target, t.shards, h, tile, view, weights)
            },
        },
{
    if let Ok((t, (h, weights))) = resident_right(
        target,
        s,
        plan,
        interleaved,
        tile,
        column,
        right,
        view,
        g,
    ) {
        assert(t.shards[right.0 as int] == s.shards[right.0 as int]);
        if resides(s.shards, right, tile) {
            let spans = spans_of(target, s.shards, view, ExchangeOrder::Physical)->Ok_0;
            if spans.len() == 1 && (!interleaved || plan.local_staging
                == crate::mid::LocalOperandStaging::Direct) {
                assert(weights == view);
            } else {
                let (more, copy) = local_block(
                    s,
                    plan,
                    interleaved,
                    tile,
                    column,
                    right,
                    view,
                    g,
                )->Ok_0.1;
                lemma_packed_copies(
                    spans,
                    right,
                    copy,
                    tile,
                    0,
                    0,
                    more.copies,
                    Seq::empty(),
                );
                assert(more.copies + Seq::<(u16, LocalCopy)>::empty() =~= more.copies);
                assert(packing(target, t.shards, view, copy, tile) is Some);
                let copies = packing(target, t.shards, view, copy, tile)->Some_0;
                assert(h.copies == more.copies + copies);
                assert(stands_at(h.copies, copies, more.copies.len() as int));
            }
        } else {
            let (more, copy) = remote_block(
                s,
                plan,
                interleaved,
                tile,
                column,
                right,
                view,
                g,
            )->Ok_0.1;
            lemma_added_transfer(more.transfers, view, weights);
        }
    }
}

// ---------------------------------------------------------------- blocks

proof fn lemma_right_shards(
    shards: Seq<ShardModel>,
    ids: Seq<LowShardId>,
    columns: (u32, u32),
    inner: (u32, u32),
    i: int,
    done: Seq<LowShardId>,
)
    requires
        0 <= i,
        forall|k: int|
            0 <= k < done.len() ==> ids.contains(#[trigger] done[k]) && holds_right_block(
                shards,
                done[k],
                columns,
                inner,
            ),
    ensures
        ({
            let all = right_shards_from(shards, ids, columns, inner, i, done);
            forall|k: int|
                0 <= k < all.len() ==> ids.contains(#[trigger] all[k]) && holds_right_block(
                    shards,
                    all[k],
                    columns,
                    inner,
                )
        }),
    decreases ids.len() - i,
{
    if i < ids.len() {
        if holds_right_block(shards, ids[i], columns, inner) {
            let more = done.push(ids[i]);
            assert forall|k: int| 0 <= k < more.len() implies ids.contains(#[trigger] more[k])
                && holds_right_block(shards, more[k], columns, inner) by {
                if k < done.len() {
                    assert(more[k] == done[k]);
                }
            }
            lemma_right_shards(shards, ids, columns, inner, i + 1, more);
            assert(right_shards_from(shards, ids, columns, inner, i, done) == right_shards_from(
                shards,
                ids,
                columns,
                inner,
                i + 1,
                more,
            ));
        } else {
            lemma_right_shards(shards, ids, columns, inner, i + 1, done);
            assert(right_shards_from(shards, ids, columns, inner, i, done) == right_shards_from(
                shards,
                ids,
                columns,
                inner,
                i + 1,
                done,
            ));
        }
    }
}

proof fn lemma_first_on(shards: Seq<ShardModel>, ids: Seq<LowShardId>, tile: u16, i: int)
    requires
        0 <= i,
    ensures
        first_on(shards, ids, tile, i) matches Some(id) ==> exists|k: int|
            0 <= k < ids.len() && #[trigger] ids[k] == id,
    decreases ids.len() - i,
{
    if i < ids.len() {
        if resides(shards, ids[i], tile) {
            assert(ids[i] == first_on(shards, ids, tile, i)->Some_0);
        } else {
            lemma_first_on(shards, ids, tile, i + 1);
        }
    }
}

/// The shards hold the block, and belong to the right operand.
pub open spec fn are_candidates(
    shards: Seq<ShardModel>,
    rights: Seq<LowShardId>,
    candidates: Seq<LowShardId>,
    inner: (u32, u32),
    columns: (u32, u32),
) -> bool {
    forall|k: int|
        0 <= k < candidates.len() ==> rights.contains(#[trigger] candidates[k])
            && candidates[k].0 < shards.len() && holds_right_block(
            shards,
            candidates[k],
            columns,
            inner,
        )
}

/// What holds of the work of a pass all along.
pub open spec fn pass_fits(g: GemmModel, plan: GemmPlan, inner: (u32, u32)) -> bool {
    &&& sources_agree(g.transfers)
    &&& lefts_hold(g, plan, inner)
    &&& plan.left_rank > 0
}

proof fn lemma_gemm_output<M: Target>(
    target: &M,
    s: StateModel,
    plan: GemmPlan,
    kernels: GemmKernels,
    rights: Seq<LowShardId>,
    candidates: Seq<LowShardId>,
    interleaved: bool,
    block: Block,
    g: GemmModel,
)
    requires
        pass_fits(g, plan, block.inner),
        are_candidates(s.shards, rights, candidates, block.inner, block.columns),
    ensures
        match gemm_output(
            target,
            s,
            plan,
            kernels,
            candidates,
            interleaved,
            block.output,
            block.inner,
            block.columns,
            g,
        ) {
            Err(_) => true,
            Ok((t, h)) => {
                &&& only_adds_shards(s, t)
                &&& work_grows(g, h)
                &&& pass_fits(h, plan, block.inner)
                &&& runs_block(target, t.shards, plan, kernels, rights, h, block)
            },
        },
{
    if let Ok((t, h)) = gemm_output(
        target,
        s,
        plan,
        kernels,
        candidates,
        interleaved,
        block.output,
        block.inner,
        block.columns,
        g,
    ) {
        let tile = s.shards[block.output.0 as int].tile;
        lemma_left_operand(target, s, plan, tile, block.inner, g);
        let (a, (some, left)) = left_operand(target, s, plan, tile, block.inner, g)->Ok_0;
        let right = prefer_local(a.shards, candidates, tile)->Some_0;
        lemma_first_on(a.shards, candidates, tile, 0);
        assert(exists|k: int| 0 <= k < candidates.len() && #[trigger] candidates[k] == right) by {
            if first_on(a.shards, candidates, tile, 0) is None {
                assert(candidates[0] == right);
            }
        }
        let at = choose|at: int| 0 <= at < candidates.len() && #[trigger] candidates[at] == right;
        assert(rights.contains(candidates[at]));
        assert(a.shards[right.0 as int] == s.shards[right.0 as int]);
        let view = right_block(a.shards, right, block.columns, block.inner)->Ok_0;
        lemma_resident_right(
            target,
            a,
            plan,
            interleaved,
            tile,
            block.columns.0,
            right,
            view,
            some,
        );
        let (b, (more, weights)) = resident_right(
            target,
            a,
            plan,
            interleaved,
            tile,
            block.columns.0,
            right,
            view,
            some,
        )->Ok_0;
        assert(t == b);
        lemma_begins_on(s.shards, a.shards, t.shards);
        lemma_work_grows_on(g, some, more);
        assert(work_grows(more, h));
        lemma_work_grows_on(g, more, h);
        assert(t.shards[right.0 as int] == a.shards[right.0 as int]);
        assert(t.shards[block.output.0 as int] == s.shards[block.output.0 as int]) by {
            assert(a.shards[block.output.0 as int] == s.shards[block.output.0 as int]);
        }
        let operands = BlockOperands { left, weights, right };
        let i = more.runs.len() as int;
        lemma_weights_still_ready(target, t.shards, t.shards, more, h, tile, view, weights);
        assert(h.runs[i] == (tile, run_of(t.shards, plan, kernels, block, operands)));
        assert(runs_with(target, t.shards, plan, kernels, rights, h, block, operands, i));
    }
}

proof fn lemma_still_candidates(
    shards: Seq<ShardModel>,
    more: Seq<ShardModel>,
    rights: Seq<LowShardId>,
    candidates: Seq<LowShardId>,
    inner: (u32, u32),
    columns: (u32, u32),
)
    requires
        begins(more, shards),
        are_candidates(shards, rights, candidates, inner, columns),
    ensures
        are_candidates(more, rights, candidates, inner, columns),
{
    assert forall|k: int| 0 <= k < candidates.len() implies rights.contains(
        #[trigger] candidates[k],
    ) && candidates[k].0 < more.len() && holds_right_block(
        more,
        candidates[k],
        columns,
        inner,
    ) by {
        assert(more[candidates[k].0 as int] == shards[candidates[k].0 as int]);
    }
}

proof fn lemma_gemm_outputs_from<M: Target>(
    target: &M,
    s: StateModel,
    plan: GemmPlan,
    kernels: GemmKernels,
    rights: Seq<LowShardId>,
    candidates: Seq<LowShardId>,
    interleaved: bool,
    users: Seq<LowShardId>,
    inner: (u32, u32),
    columns: (u32, u32),
    k: int,
    g: GemmModel,
)
    requires
        0 <= k,
        pass_fits(g, plan, inner),
        are_candidates(s.shards, rights, candidates, inner, columns),
    ensures
        match gemm_outputs_from(
            target,
            s,
            plan,
            kernels,
            candidates,
            interleaved,
            users,
            inner,
            columns,
            k,
            g,
        ) {
            Err(_) => true,
            Ok((t, h)) => {
                &&& only_adds_shards(s, t)
                &&& work_grows(g, h)
                &&& pass_fits(h, plan, inner)
                &&& forall|i: int|
                    k <= i < users.len() ==> runs_block(
                        target,
                        t.shards,
                        plan,
                        kernels,
                        rights,
                        h,
                        (Block { output: #[trigger] users[i], inner, columns }),
                    )
            },
        },
    decreases users.len() - k,
{
    if k < users.len() {
        let block = Block { output: users[k], inner, columns };
        lemma_gemm_output(
            target,
            s,
            plan,
            kernels,
            rights,
            candidates,
            interleaved,
            block,
            g,
        );
        if let Ok((next, more)) = gemm_output(
            target,
            s,
            plan,
            kernels,
            candidates,
            interleaved,
            users[k],
            inner,
            columns,
            g,
        ) {
            lemma_still_candidates(
                s.shards,
                next.shards,
                rights,
                candidates,
                inner,
                columns,
            );
            lemma_gemm_outputs_from(
                target,
                next,
                plan,
                kernels,
                rights,
                candidates,
                interleaved,
                users,
                inner,
                columns,
                k + 1,
                more,
            );
            if let Ok((t, h)) = gemm_outputs_from(
                target,
                s,
                plan,
                kernels,
                candidates,
                interleaved,
                users,
                inner,
                columns,
                k,
                g,
            ) {
                lemma_begins_on(s.shards, next.shards, t.shards);
                lemma_work_grows_on(g, more, h);
                lemma_still_runs(
                    target,
                    next.shards,
                    t.shards,
                    plan,
                    kernels,
                    rights,
                    more,
                    h,
                    block,
                );
            }
        }
    }
}

proof fn lemma_column_outputs(
    shards: Seq<ShardModel>,
    ids: Seq<LowShardId>,
    columns: (u32, u32),
    k: int,
    done: Seq<LowShardId>,
    id: LowShardId,
)
    requires
        0 <= k,
        holds_columns(shards, id, columns),
        done.contains(id) || exists|i: int| k <= i < ids.len() && #[trigger] ids[i] == id,
    ensures
        column_outputs_from(shards, ids, columns, k, done).contains(id),
    decreases ids.len() - k,
{
    if k < ids.len() {
        if holds_columns(shards, ids[k], columns) {
            let more = done.push(ids[k]);
            if done.contains(id) {
                let i = choose|i: int| 0 <= i < done.len() && done[i] == id;
                assert(more[i] == id);
            } else if ids[k] == id {
                assert(more[done.len() as int] == id);
            }
            lemma_column_outputs(shards, ids, columns, k + 1, more, id);
        } else {
            lemma_column_outputs(shards, ids, columns, k + 1, done, id);
        }
    }
}

proof fn lemma_gemm_column<M: Target>(
    target: &M,
    s: StateModel,
    plan: GemmPlan,
    kernels: GemmKernels,
    rights: Seq<LowShardId>,
    outputs: Seq<LowShardId>,
    inner: (u32, u32),
    columns: (u32, u32),
    g: GemmModel,
)
    requires
        pass_fits(g, plan, inner),
    ensures
        match gemm_column(target, s, plan, kernels, rights, outputs, inner, columns, g) {
            Err(_) => true,
            Ok((t, h)) => {
                &&& only_adds_shards(s, t)
                &&& work_grows(g, h)
                &&& pass_fits(h, plan, inner)
                &&& forall|output: LowShardId|
                    outputs.contains(output) && #[trigger] holds_columns(
                        s.shards,
                        output,
                        columns,
                    ) ==> runs_block(
                        target,
                        t.shards,
                        plan,
                        kernels,
                        rights,
                        h,
                        Block { output, inner, columns },
                    )
            },
        },
{
    let candidates = right_shards_from(s.shards, rights, columns, inner, 0, Seq::empty());
    let users = column_outputs_from(s.shards, outputs, columns, 0, Seq::empty());
    lemma_right_shards(s.shards, rights, columns, inner, 0, Seq::empty());
    if let Ok((t, h)) = gemm_column(
        target,
        s,
        plan,
        kernels,
        rights,
        outputs,
        inner,
        columns,
        g,
    ) {
        let interleaved = column_interleaved(
            target,
            s.shards,
            plan,
            rights,
            users,
            columns,
        )->Ok_0;
        lemma_gemm_outputs_from(
            target,
            s,
            plan,
            kernels,
            rights,
            candidates,
            interleaved,
            users,
            inner,
            columns,
            0,
            g,
        );
        assert forall|output: LowShardId|
            outputs.contains(output) && #[trigger] holds_columns(
                s.shards,
                output,
                columns,
            ) implies runs_block(
            target,
            t.shards,
            plan,
            kernels,
            rights,
            h,
            Block { output, inner, columns },
        ) by {
            let i = choose|i: int| 0 <= i < outputs.len() && outputs[i] == output;
            assert(outputs[i] == output);
            lemma_column_outputs(s.shards, outputs, columns, 0, Seq::empty(), output);
            let u = choose|u: int| 0 <= u < users.len() && users[u] == output;
            assert(runs_block(
                target,
                t.shards,
                plan,
                kernels,
                rights,
                h,
                Block { output: users[u], inner, columns },
            ));
        }
    }
}

proof fn lemma_gemm_columns_from<M: Target>(
    target: &M,
    s: StateModel,
    plan: GemmPlan,
    kernels: GemmKernels,
    rights: Seq<LowShardId>,
    outputs: Seq<LowShardId>,
    inner: (u32, u32),
    c: int,
    g: GemmModel,
)
    requires
        pass_fits(g, plan, inner),
    ensures
        match gemm_columns_from(target, s, plan, kernels, rights, outputs, inner, c, g) {
            Err(_) => true,
            Ok((t, h)) => {
                &&& only_adds_shards(s, t)
                &&& work_grows(g, h)
                &&& pass_fits(h, plan, inner)
                &&& forall|d: int, output: LowShardId|
                    c <= d < plan.column_blocks && outputs.contains(output)
                        && #[trigger] holds_columns(
                        s.shards,
                        output,
                        block_range(d, plan.column_block),
                    ) ==> runs_block(
                        target,
                        t.shards,
                        plan,
                        kernels,
                        rights,
                        h,
                        Block { output, inner, columns: block_range(d, plan.column_block) },
                    )
            },
        },
    decreases plan.column_blocks - c,
{
    if c < plan.column_blocks {
        let columns = block_range(c, plan.column_block);
        lemma_gemm_column(target, s, plan, kernels, rights, outputs, inner, columns, g);
        if let Ok((next, more)) = gemm_column(
            target,
            s,
            plan,
            kernels,
            rights,
            outputs,
            inner,
            columns,
            g,
        ) {
            lemma_gemm_columns_from(
                target,
                next,
                plan,
                kernels,
                rights,
                outputs,
                inner,
                c + 1,
                more,
            );
            if let Ok((t, h)) = gemm_columns_from(
                target,
                s,
                plan,
                kernels,
                rights,
                outputs,
                inner,
                c,
                g,
            ) {
                lemma_begins_on(s.shards, next.shards, t.shards);
                lemma_work_grows_on(g, more, h);
                assert forall|d: int, output: LowShardId|
                    c <= d < plan.column_blocks && outputs.contains(output)
                        && #[trigger] holds_columns(
                        s.shards,
                        output,
                        block_range(d, plan.column_block),
                    ) implies runs_block(
                    target,
                    t.shards,
                    plan,
                    kernels,
                    rights,
                    h,
                    Block { output, inner, columns: block_range(d, plan.column_block) },
                ) by {
                    if d == c {
                        lemma_still_runs(
                            target,
                            next.shards,
                            t.shards,
                            plan,
                            kernels,
                            rights,
                            more,
                            h,
                            Block { output, inner, columns },
                        );
                    } else {
                        assert(next.shards[output.0 as int] == s.shards[output.0 as int]);
                        assert(holds_columns(
                            next.shards,
                            output,
                            block_range(d, plan.column_block),
                        ));
                    }
                }
            }
        }
    }
}

// ---------------------------------------------------------------- schedules

/// The runs that a run is scheduled as: one for each matrix of a batched
/// product, and else itself.
pub open spec fn scheduled_runs(shards: Seq<ShardModel>, run: RunModel) -> Seq<RunModel> {
    if is_batched_product(shards, run) {
        match matrix_runs_below(
            shards,
            run,
            (run.output.extents.len() - 2) as nat,
            Seq::empty(),
            Seq::empty(),
        ) {
            Ok(matrices) => if matrices.len() > 1 {
                matrices
            } else {
                seq![run]
            },
            Err(_) => seq![run],
        }
    } else {
        seq![run]
    }
}

/// The runs stand in the schedule from position `at` on, and the tile makes
/// them.
pub open spec fn runs_at(s: StateModel, runs: Seq<RunModel>, tile: u16, at: int) -> bool {
    &&& stands_at(s.kernel_runs, runs, at)
    &&& forall|i: int|
        0 <= i < runs.len() ==> schedules(
            s,
            tile,
            TileWork::Kernel(KernelRunId((#[trigger] (at + i)) as u32)),
        )
}

/// A tile makes a run, or the runs of its matrices, from position `at` on.
pub open spec fn makes_at(
    s: StateModel,
    shards: Seq<ShardModel>,
    run: RunModel,
    tile: u16,
    at: int,
) -> bool {
    begins(s.shards, shards) && runs_at(s, scheduled_runs(shards, run), tile, at)
}

/// A tile makes a run, or the runs of its matrices.
pub open spec fn makes(s: StateModel, shards: Seq<ShardModel>, run: RunModel, tile: u16) -> bool {
    exists|at: int| #[trigger] makes_at(s, shards, run, tile, at)
}

/// Copies are made, each on its tile.
pub open spec fn list_at(s: StateModel, list: Seq<(u16, LocalCopy)>, at: int) -> bool {
    &&& 0 <= at
    &&& at + list.len() <= s.local_copies.len()
    &&& forall|i: int|
        0 <= i < list.len() ==> s.local_copies[at + i] == (#[trigger] list[i]).1 && schedules(
            s,
            list[i].0,
            TileWork::LocalCopy(LocalCopyId((at + i) as u32)),
        )
}

/// Copies are made.
pub open spec fn makes_list(s: StateModel, list: Seq<(u16, LocalCopy)>) -> bool {
    exists|at: int| #[trigger] list_at(s, list, at)
}

/// The weights of a run are a block in place, or the schedule packs or sends
/// the block there.
pub open spec fn weights_brought<M: Target>(
    target: &M,
    s: StateModel,
    tile: u16,
    block: ViewModel,
    weights: ViewModel,
) -> bool {
    ||| weights == block && resides(s.shards, block.shard, tile)
    ||| resides(s.shards, block.shard, tile) && (match packing(
        target,
        s.shards,
        block,
        weights.shard,
        tile,
    ) {
        Some(copies) => makes_list(s, copies),
        None => false,
    })
    ||| makes_exchange(s, block, weights)
}

/// A schedule computes a block: it brings the weights, and makes the run.
pub open spec fn computes_with<M: Target>(
    target: &M,
    s: StateModel,
    plan: GemmPlan,
    kernels: GemmKernels,
    rights: Seq<LowShardId>,
    block: Block,
    operands: BlockOperands,
    shards: Seq<ShardModel>,
    at: int,
) -> bool {
    let tile = s.shards[block.output.0 as int].tile;
    &&& operands_fit(s.shards, plan, rights, block, operands)
    &&& makes_at(s, shards, run_of(s.shards, plan, kernels, block, operands), tile, at)
    &&& weights_brought(
        target,
        s,
        tile,
        right_block(s.shards, operands.right, block.columns, block.inner)->Ok_0,
        operands.weights,
    )
}

/// A schedule computes a block.
pub open spec fn computes<M: Target>(
    target: &M,
    s: StateModel,
    plan: GemmPlan,
    kernels: GemmKernels,
    rights: Seq<LowShardId>,
    block: Block,
) -> bool {
    exists|operands: BlockOperands, shards: Seq<ShardModel>, at: int| #[trigger]
        computes_with(target, s, plan, kernels, rights, block, operands, shards, at)
}

/// A schedule still holds what it held before, and may have more shards.
pub open spec fn grew(s: StateModel, t: StateModel) -> bool {
    begins(t.shards, s.shards) && holds_on(s, (StateModel { shards: s.shards, ..t }))
}

proof fn lemma_still_listed(s: StateModel, t: StateModel, list: Seq<(u16, LocalCopy)>)
    requires
        grew(s, t),
        makes_list(s, list),
    ensures
        makes_list(t, list),
{
    let u = StateModel { shards: s.shards, ..t };
    let at = choose|at: int| #[trigger] list_at(s, list, at);
    assert forall|i: int| 0 <= i < list.len() implies t.local_copies[at + i] == (
    #[trigger] list[i]).1 && schedules(
        t,
        list[i].0,
        TileWork::LocalCopy(LocalCopyId((at + i) as u32)),
    ) by {
        assert(u.local_copies[at + i] == s.local_copies[at + i]);
        lemma_still_schedules(
            s,
            u,
            list[i].0,
            TileWork::LocalCopy(LocalCopyId((at + i) as u32)),
        );
    }
    assert(list_at(t, list, at));
}

pub(crate) proof fn lemma_still_made(
    s: StateModel,
    t: StateModel,
    shards: Seq<ShardModel>,
    run: RunModel,
    tile: u16,
    at: int,
)
    requires
        grew(s, t),
        makes_at(s, shards, run, tile, at),
    ensures
        makes_at(t, shards, run, tile, at),
{
    let u = StateModel { shards: s.shards, ..t };
    let runs = scheduled_runs(shards, run);
    lemma_begins_on(shards, s.shards, t.shards);
    assert forall|i: int| 0 <= i < runs.len() implies t.kernel_runs[at + i]
        == #[trigger] runs[i] by {
        assert(u.kernel_runs[at + i] == s.kernel_runs[at + i]);
    }
    assert forall|i: int| 0 <= i < runs.len() implies schedules(
        t,
        tile,
        TileWork::Kernel(KernelRunId((#[trigger] (at + i)) as u32)),
    ) by {
        lemma_still_schedules(
            s,
            u,
            tile,
            TileWork::Kernel(KernelRunId((at + i) as u32)),
        );
    }
}

proof fn lemma_still_brought<M: Target>(
    target: &M,
    s: StateModel,
    t: StateModel,
    tile: u16,
    block: ViewModel,
    weights: ViewModel,
)
    requires
        grew(s, t),
        block.shard.0 < s.shards.len(),
        weights_brought(target, s, tile, block, weights),
    ensures
        weights_brought(target, t, tile, block, weights),
{
    let u = StateModel { shards: s.shards, ..t };
    assert(t.shards[block.shard.0 as int] == s.shards[block.shard.0 as int]);
    if makes_exchange(s, block, weights) {
        lemma_still_exchanges(s, u, block, weights);
        let (p, x) = choose|p: int, x: int|
            0 <= p < u.phases.len() && 0 <= x < u.phases[p].transfers.len()
                && crate::carriage::exchanges_views(
                #[trigger] u.phases[p].transfers[x],
                block,
                weights,
            );
        assert(crate::carriage::exchanges_views(t.phases[p].transfers[x], block, weights));
    } else if let Some(copies) = packing(target, s.shards, block, weights.shard, tile) {
        if makes_list(s, copies) {
            lemma_still_listed(s, t, copies);
        }
    }
}

proof fn lemma_still_computes<M: Target>(
    target: &M,
    s: StateModel,
    t: StateModel,
    plan: GemmPlan,
    kernels: GemmKernels,
    rights: Seq<LowShardId>,
    block: Block,
)
    requires
        grew(s, t),
        computes(target, s, plan, kernels, rights, block),
    ensures
        computes(target, t, plan, kernels, rights, block),
{
    let (operands, shards, at) = choose|
        operands: BlockOperands,
        shards: Seq<ShardModel>,
        at: int,
    | #[trigger]
        computes_with(target, s, plan, kernels, rights, block, operands, shards, at);
    let tile = s.shards[block.output.0 as int].tile;
    lemma_operands_still_fit(s.shards, t.shards, plan, kernels, rights, block, operands);
    lemma_still_made(
        s,
        t,
        shards,
        run_of(s.shards, plan, kernels, block, operands),
        tile,
        at,
    );
    lemma_still_brought(
        target,
        s,
        t,
        tile,
        right_block(s.shards, operands.right, block.columns, block.inner)->Ok_0,
        operands.weights,
    );
    assert(computes_with(target, t, plan, kernels, rights, block, operands, shards, at));
}

proof fn lemma_single_kernels(s: StateModel, tile: u16, runs: Seq<RunModel>, i: int)
    requires
        0 <= i <= runs.len(),
    ensures
        match append_single_kernels_from(s, tile, runs, i) {
            Err(_) => true,
            Ok(t) => {
                &&& holds_on(s, t)
                &&& t.kernel_runs.len() == s.kernel_runs.len() + runs.len() - i
                &&& forall|k: int|
                    i <= k < runs.len() ==> t.kernel_runs[s.kernel_runs.len() + k - i]
                        == #[trigger] runs[k] && schedules(
                        t,
                        tile,
                        TileWork::Kernel(KernelRunId((s.kernel_runs.len() + k - i) as u32)),
                    )
            },
        },
    decreases runs.len() - i,
{
    if i < runs.len() {
        if let Ok(next) = append_single_kernel(s, tile, runs[i]) {
            let at = s.kernel_runs.len() as int;
            let work = TileWork::Kernel(KernelRunId(at as u32));
            let list = s.tiles[tile as int].work;
            assert(next.tiles[tile as int].work[list.len() as int] == work);
            assert(schedules(next, tile, work));
            assert(holds_on(s, next));
            lemma_single_kernels(next, tile, runs, i + 1);
            if let Ok(t) = append_single_kernels_from(s, tile, runs, i) {
                lemma_holds_on(s, next, t);
                lemma_still_schedules(next, t, tile, work);
                assert(t.kernel_runs[at] == next.kernel_runs[at]);
                assert forall|k: int| i <= k < runs.len() implies t.kernel_runs[
                    s.kernel_runs.len() + k - i
                ] == #[trigger] runs[k] && schedules(
                    t,
                    tile,
                    TileWork::Kernel(KernelRunId((s.kernel_runs.len() + k - i) as u32)),
                ) by {
                    if k > i {
                        assert(next.kernel_runs.len() + k - (i + 1) == s.kernel_runs.len() + k
                            - i);
                    }
                }
            }
        }
    }
}

pub(crate) proof fn lemma_append_run(s: StateModel, tile: u16, run: RunModel)
    ensures
        match append_kernel(s, tile, run) {
            Err(_) => true,
            Ok(t) => holds_on(s, t) && makes_at(
                t,
                s.shards,
                run,
                tile,
                s.kernel_runs.len() as int,
            ),
        },
{
    let runs = scheduled_runs(s.shards, run);
    if let Ok(t) = append_kernel(s, tile, run) {
        lemma_single_kernels(s, tile, runs, 0);
        if runs == seq![run] {
            reveal_with_fuel(append_single_kernels_from, 2);
        }
        assert(append_single_kernels_from(s, tile, runs, 0) == Ok::<
            StateModel,
            crate::low::LowLoweringError,
        >(t));
        let at = s.kernel_runs.len() as int;
        assert forall|i: int| 0 <= i < runs.len() implies t.kernel_runs[at + i]
            == #[trigger] runs[i] by {
            assert(t.kernel_runs[s.kernel_runs.len() + i - 0] == runs[i]);
        }
        assert forall|i: int| 0 <= i < runs.len() implies schedules(
            t,
            tile,
            TileWork::Kernel(KernelRunId((#[trigger] (at + i)) as u32)),
        ) by {
            assert(t.kernel_runs[s.kernel_runs.len() + i - 0] == runs[i]);
        }
    }
}

pub(crate) proof fn lemma_append_runs(s: StateModel, runs: Seq<(u16, RunModel)>, i: int)
    requires
        0 <= i <= runs.len(),
    ensures
        match append_kernels_from(s, runs, i) {
            Err(_) => true,
            Ok(t) => {
                &&& holds_on(s, t)
                &&& forall|k: int|
                    i <= k < runs.len() ==> makes(
                        t,
                        s.shards,
                        (#[trigger] runs[k]).1,
                        runs[k].0,
                    )
            },
        },
    decreases runs.len() - i,
{
    if i < runs.len() {
        lemma_append_run(s, runs[i].0, runs[i].1);
        if let Ok(next) = append_kernel(s, runs[i].0, runs[i].1) {
            lemma_append_runs(next, runs, i + 1);
            if let Ok(t) = append_kernels_from(s, runs, i) {
                lemma_holds_on(s, next, t);
                assert(grew(next, t));
                let at = s.kernel_runs.len() as int;
                lemma_still_made(next, t, s.shards, runs[i].1, runs[i].0, at);
                assert(makes(t, s.shards, runs[i].1, runs[i].0));
                assert(next.shards == s.shards);
            }
        }
    }
}

proof fn lemma_listed_copies(
    s: StateModel,
    list: Seq<(u16, LocalCopy)>,
    part: Seq<(u16, LocalCopy)>,
)
    requires
        stands_in(list, part),
    ensures
        match append_copies_from(s, list, 0) {
            Err(_) => true,
            Ok(t) => makes_list(t, part),
        },
{
    let at = choose|at: int| #[trigger] stands_at(list, part, at);
    lemma_append_copies(s, list, 0);
    if let Ok(t) = append_copies_from(s, list, 0) {
        let start = s.local_copies.len() + at;
        assert forall|i: int| 0 <= i < part.len() implies t.local_copies[start + i] == (
        #[trigger] part[i]).1 && schedules(
            t,
            part[i].0,
            TileWork::LocalCopy(LocalCopyId((start + i) as u32)),
        ) by {
            assert(list[at + i] == part[i]);
            assert(s.local_copies.len() + (at + i) - 0 == start + i);
        }
        assert(list_at(t, part, start));
    }
}

/// One pass computes its block of the inner axis, for every block of columns of
/// every output.
proof fn lemma_gemm_pass<M: Target>(
    target: &M,
    s: StateModel,
    plan: GemmPlan,
    kernels: GemmKernels,
    rights: Seq<LowShardId>,
    outputs: Seq<LowShardId>,
    k: int,
    local: Seq<Staged>,
    remote: Seq<Staged>,
)
    requires
        plan.left_rank > 0,
    ensures
        match gemm_pass(target, s, plan, kernels, rights, outputs, k, local, remote) {
            Err(_) => true,
            Ok((t, _)) => {
                &&& grew(s, t)
                &&& forall|d: int, output: LowShardId|
                    0 <= d < plan.column_blocks && outputs.contains(output)
                        && #[trigger] holds_columns(
                        s.shards,
                        output,
                        block_range(d, plan.column_block),
                    ) ==> computes(
                        target,
                        t,
                        plan,
                        kernels,
                        rights,
                        Block {
                            output,
                            inner: block_range(k, plan.inner_block),
                            columns: block_range(d, plan.column_block),
                        },
                    )
            },
        },
{
    let inner = block_range(k, plan.inner_block);
    let start = fresh_pass(local, remote);
    lemma_gemm_columns_from(target, s, plan, kernels, rights, outputs, inner, 0, start);
    if let Ok((t, _)) = gemm_pass(
        target,
        s,
        plan,
        kernels,
        rights,
        outputs,
        k,
        local,
        remote,
    ) {
        let (a, g) = gemm_columns_from(
            target,
            s,
            plan,
            kernels,
            rights,
            outputs,
            inner,
            0,
            start,
        )->Ok_0;
        let provenance = pass_provenance(a, plan);
        let b = append_ordered_phase(
            a,
            g.transfers,
            provenance,
            ExchangeOrder::Semantic,
        )->Ok_0;
        let c = append_copies_from(b, g.copies, 0)->Ok_0;
        lemma_append_phase(a, g.transfers, provenance, ExchangeOrder::Semantic);
        lemma_append_copies(b, g.copies, 0);
        lemma_append_runs(c, g.runs, 0);
        lemma_holds_on(a, b, c);
        lemma_holds_on(a, c, t);
        lemma_holds_on(b, c, t);
        assert(grew(b, t));
        assert(grew(c, t));
        assert(grew(s, t));
        assert forall|d: int, output: LowShardId|
            0 <= d < plan.column_blocks && outputs.contains(output) && #[trigger] holds_columns(
                s.shards,
                output,
                block_range(d, plan.column_block),
            ) implies computes(
            target,
            t,
            plan,
            kernels,
            rights,
            Block { output, inner, columns: block_range(d, plan.column_block) },
        ) by {
            let block = Block { output, inner, columns: block_range(d, plan.column_block) };
            assert(runs_block(target, a.shards, plan, kernels, rights, g, block));
            let (operands, i) = choose|operands: BlockOperands, i: int| #[trigger]
                runs_with(target, a.shards, plan, kernels, rights, g, block, operands, i);
            let tile = a.shards[block.output.0 as int].tile;
            let view = right_block(
                a.shards,
                operands.right,
                block.columns,
                block.inner,
            )->Ok_0;
            let run = run_of(a.shards, plan, kernels, block, operands);
            assert(g.runs[i] == (tile, run));
            assert(makes(t, c.shards, g.runs[i].1, g.runs[i].0));
            let at = choose|at: int| #[trigger] makes_at(t, c.shards, run, tile, at);
            assert(makes_at(t, c.shards, run, tile, at));
            assert(weights_brought(target, t, tile, view, operands.weights)) by {
                if sends(g.transfers, view, operands.weights) {
                    assert(makes_exchange(b, view, operands.weights));
                    lemma_still_brought(target, b, t, tile, view, operands.weights);
                } else if let Some(copies) = packing(
                    target,
                    a.shards,
                    view,
                    operands.weights.shard,
                    tile,
                ) {
                    if stands_in(g.copies, copies) {
                        lemma_listed_copies(b, g.copies, copies);
                        lemma_still_listed(c, t, copies);
                    }
                }
            }
            assert(computes_with(
                target,
                t,
                plan,
                kernels,
                rights,
                block,
                operands,
                c.shards,
                at,
            ));
        }
    }
}

proof fn lemma_grew_on(a: StateModel, b: StateModel, c: StateModel)
    requires
        grew(a, b),
        grew(b, c),
    ensures
        grew(a, c),
{
    lemma_begins_on(a.shards, b.shards, c.shards);
    lemma_holds_on(
        a,
        StateModel { shards: a.shards, ..b },
        StateModel { shards: a.shards, ..c },
    );
}

proof fn lemma_gemm_passes<M: Target>(
    target: &M,
    s: StateModel,
    plan: GemmPlan,
    kernels: GemmKernels,
    rights: Seq<LowShardId>,
    outputs: Seq<LowShardId>,
    k: int,
    local: Seq<Staged>,
    remote: Seq<Staged>,
)
    requires
        plan.left_rank > 0,
    ensures
        match gemm_passes_from(target, s, plan, kernels, rights, outputs, k, local, remote) {
            Err(_) => true,
            Ok(t) => {
                &&& grew(s, t)
                &&& forall|p: int, d: int, output: LowShardId|
                    k <= p < plan.inner_blocks && 0 <= d < plan.column_blocks
                        && outputs.contains(output) && holds_columns(
                        s.shards,
                        output,
                        block_range(d, plan.column_block),
                    ) ==> #[trigger] computes(
                        target,
                        t,
                        plan,
                        kernels,
                        rights,
                        (Block {
                            output,
                            inner: block_range(p, plan.inner_block),
                            columns: block_range(d, plan.column_block),
                        }),
                    )
            },
        },
    decreases plan.inner_blocks - k,
{
    if k < plan.inner_blocks {
        lemma_gemm_pass(target, s, plan, kernels, rights, outputs, k, local, remote);
        if let Ok((next, (more_local, more_remote))) = gemm_pass(
            target,
            s,
            plan,
            kernels,
            rights,
            outputs,
            k,
            local,
            remote,
        ) {
            lemma_gemm_passes(
                target,
                next,
                plan,
                kernels,
                rights,
                outputs,
                k + 1,
                more_local,
                more_remote,
            );
            if let Ok(t) = gemm_passes_from(
                target,
                s,
                plan,
                kernels,
                rights,
                outputs,
                k,
                local,
                remote,
            ) {
                lemma_grew_on(s, next, t);
                assert forall|p: int, d: int, output: LowShardId|
                    k <= p < plan.inner_blocks && 0 <= d < plan.column_blocks
                        && outputs.contains(output) && holds_columns(
                        s.shards,
                        output,
                        block_range(d, plan.column_block),
                    ) implies #[trigger] computes(
                    target,
                    t,
                    plan,
                    kernels,
                    rights,
                    (Block {
                        output,
                        inner: block_range(p, plan.inner_block),
                        columns: block_range(d, plan.column_block),
                    }),
                ) by {
                    let block = Block {
                        output,
                        inner: block_range(p, plan.inner_block),
                        columns: block_range(d, plan.column_block),
                    };
                    if p == k {
                        assert(computes(target, next, plan, kernels, rights, block));
                        lemma_still_computes(
                            target,
                            next,
                            t,
                            plan,
                            kernels,
                            rights,
                            block,
                        );
                    } else {
                        assert(next.shards[output.0 as int] == s.shards[output.0 as int]);
                        assert(holds_columns(
                            next.shards,
                            output,
                            block_range(d, plan.column_block),
                        ));
                    }
                }
            }
        } else {
            assert(gemm_passes_from(
                target,
                s,
                plan,
                kernels,
                rights,
                outputs,
                k,
                local,
                remote,
            ) is Err);
        }
    } else {
        assert(holds_on(s, s));
    }
}

/// A product computes every block: for each output, for each block of its
/// columns and for each block of the inner axis, the schedule makes a run on
/// the output's tile, which initializes the output on the first block of the
/// inner axis and adds to it on the others. Its left operand holds the inner
/// block, and its weights are the matching block of the right operand: in
/// place, packed by copies, or received by an exchange.
pub proof fn lemma_products_compute_every_block<M: Target>(
    target: &M,
    s: StateModel,
    plan: GemmPlan,
    kernels: GemmKernels,
    rights: Seq<LowShardId>,
    outputs: Seq<LowShardId>,
    pass: int,
    column: int,
    output: LowShardId,
)
    requires
        plan.left_rank > 0,
        0 <= pass < plan.inner_blocks,
        0 <= column < plan.column_blocks,
        outputs.contains(output),
        holds_columns(s.shards, output, block_range(column, plan.column_block)),
    ensures
        match gemm_passes_from(
            target,
            s,
            plan,
            kernels,
            rights,
            outputs,
            0,
            Seq::empty(),
            Seq::empty(),
        ) {
            Err(_) => true,
            Ok(t) => computes(
                target,
                t,
                plan,
                kernels,
                rights,
                Block {
                    output,
                    inner: block_range(pass, plan.inner_block),
                    columns: block_range(column, plan.column_block),
                },
            ),
        },
{
    lemma_gemm_passes(
        target,
        s,
        plan,
        kernels,
        rights,
        outputs,
        0,
        Seq::empty(),
        Seq::empty(),
    );
}

} // verus!
