//! Matrix products keep a schedule sound.

use crate::buffers::packed_buffer;
use crate::copies::spans_of;
use crate::deferred::Movement;
use crate::extents::padded_intersection;
use crate::gemm::{
    GemmKernels, GemmModel, GemmPlan, Staged, block_range, block_shard, column_interleaved,
    column_outputs_from, dispatch_input_view, divides_inner, fresh_pass, gemm_column,
    gemm_columns_from, gemm_output, gemm_outputs_from, gemm_pass, gemm_passes_from, left_from,
    left_operand, loading, local_block, lower_resident_gemm, lower_resident_product, onto,
    packed_copies_from, padded_axis, pass_provenance, remote_block, resident_right, right_block, staged_from, streams_interleaved,
};
use crate::lookup::{
    converted_from, intersecting, local_shard, prefer_local, resides, right_shards_from, value_shards,
};
use crate::low::{
    ExchangeOrder, LocalCopy, LocalCopyPattern, LowShardId, RunModel, ShardDefinition, ShardModel, ViewModel,
    WorkProvenance, WorkReason,
};
use crate::mid::{
    GemmDistribution, GemmOrientation, LocalOperandStaging, MidOperation, MidValueId,
    OperandMaterialization, OperatorRequirementsModel,
};
use crate::order::{GroupModel, groups_insert, lemma_slot_bounds, slot_from};
use crate::phase::append_ordered_phase;
use crate::pointwise::{operator_run, receiving_shard};
use crate::reduction_partials::{
    PanelSource, PartialModel, StagedWeights, add_block_runs, add_blocks_from, add_left,
    add_lefts_from, add_panel_runs_from, add_partial_run, add_partitions_from, any_direct,
    bring_panel, bring_panels_from, computable, contribute, direct_output_from, first_panel_end,
    footprint_key, no_partials, partial_extents, partial_storage, record_partial, resident_left,
    resident_left_from, staged_block, staged_weights_from, weight_block, weight_source, weight_staging,
    weights_storage, whole_ranges,
};
use crate::reduction_plan::{
    Columns, Partitions, ReductionPlan, column_partitions, panel_block, partial_type, product_axes,
    replica_columns,
};
use crate::reduction_sum::{
    Division, RootModel, SumsModel, add_groups_from, add_root, add_roots_from, append_partials,
    append_stage, append_stages_from, append_sums, chunk_len, kernel_requirements,
    lower_blocked_gemm, lower_parallel_reduction_gemm, part_of, partials_per_stage, reduce_planned,
    reduce_product, root_buffers, root_run, row_view, seed_position, stage_count, stage_runs_from, stage_transfers_from,
    volume,
};
use crate::schedule::{
    copies_reside, follows, group_follows, lemma_binary_resides, lemma_no_copies_reside,
    lemma_no_runs_reside, lemma_push_shard,
    lemma_pushed_run_resides, run_resides, runs_reside,
};
use crate::schedule_data::{
    lemma_append_copies_from, lemma_append_kernels_from, lemma_append_ordered_phase,
    lemma_local_shard_resides, lemma_place_resides, lemma_view_copies_reside,
};
use crate::state::{StateModel, append_copies_from, narrow_view, push_shard, shard_of};
use crate::target::Target;
use crate::tensor::{ByteSpan, Precision, ShardExtent, TypeModel};
use vstd::prelude::*;

verus! {

/// Staged blocks are on the tiles that they are staged for.
pub open spec fn staged_resides(shards: Seq<ShardModel>, staged: Seq<Staged>) -> bool {
    forall|i: int|
        0 <= i < staged.len() ==> resides(shards, (#[trigger] staged[i]).1, staged[i].0.0)
}

/// Left operands are on the tiles that they are for.
pub open spec fn lefts_reside(shards: Seq<ShardModel>, lefts: Seq<(u16, ViewModel)>) -> bool {
    forall|i: int|
        0 <= i < lefts.len() ==> resides(shards, (#[trigger] lefts[i]).1.shard, lefts[i].0)
}

/// All that a pass has gathered is where it is used.
#[verifier::opaque]
pub open spec fn pass_resides(shards: Seq<ShardModel>, g: GemmModel) -> bool {
    &&& staged_resides(shards, g.local)
    &&& staged_resides(shards, g.remote)
    &&& lefts_reside(shards, g.left)
    &&& runs_reside(shards, g.runs)
    &&& copies_reside(shards, g.copies)
}

pub broadcast proof fn lemma_staged_still_resides(
    s: StateModel,
    t: StateModel,
    staged: Seq<Staged>,
)
    requires
        #[trigger] follows(s, t),
        #[trigger] staged_resides(s.shards, staged),
    ensures
        staged_resides(t.shards, staged),
{
    broadcast use group_follows;

    assert forall|i: int| 0 <= i < staged.len() implies resides(
        t.shards,
        (#[trigger] staged[i]).1,
        staged[i].0.0,
    ) by {
        assert(resides(s.shards, staged[i].1, staged[i].0.0));
    }
}

pub broadcast proof fn lemma_lefts_still_reside(
    s: StateModel,
    t: StateModel,
    lefts: Seq<(u16, ViewModel)>,
)
    requires
        #[trigger] follows(s, t),
        #[trigger] lefts_reside(s.shards, lefts),
    ensures
        lefts_reside(t.shards, lefts),
{
    broadcast use group_follows;

    assert forall|i: int| 0 <= i < lefts.len() implies resides(
        t.shards,
        (#[trigger] lefts[i]).1.shard,
        lefts[i].0,
    ) by {
        assert(resides(s.shards, lefts[i].1.shard, lefts[i].0));
    }
}

pub broadcast proof fn lemma_pass_still_resides(s: StateModel, t: StateModel, g: GemmModel)
    requires
        #[trigger] follows(s, t),
        #[trigger] pass_resides(s.shards, g),
    ensures
        pass_resides(t.shards, g),
{
    broadcast use group_follows;

    reveal(pass_resides);
    lemma_staged_still_resides(s, t, g.local);
    lemma_staged_still_resides(s, t, g.remote);
    lemma_lefts_still_reside(s, t, g.left);
}

/// Every left operand is where the shard that it stands for is.
pub open spec fn replaced_lefts_reside(
    shards: Seq<ShardModel>,
    lefts: Seq<(LowShardId, ViewModel)>,
) -> bool {
    forall|i: int|
        0 <= i < lefts.len() ==> (#[trigger] lefts[i]).0.0 < shards.len() && resides(
            shards,
            lefts[i].1.shard,
            shards[lefts[i].0.0 as int].tile,
        )
}

/// Staged weights are on the tiles that they are staged for.
pub open spec fn weights_reside(shards: Seq<ShardModel>, weights: Seq<StagedWeights>) -> bool {
    forall|i: int|
        0 <= i < weights.len() ==> resides(shards, (#[trigger] weights[i]).1, weights[i].0.0)
}

/// Partial results that are summed up together are on their tiles, and there is
/// one at least.
#[verifier::opaque]
pub open spec fn groups_reside(
    shards: Seq<ShardModel>,
    groups: Seq<GroupModel<(u16, ViewModel)>>,
) -> bool {
    forall|g: int|
        0 <= g < groups.len() ==> (#[trigger] groups[g]).items.len() > 0 && lefts_reside(
            shards,
            groups[g].items,
        )
}

pub broadcast proof fn lemma_groups_still_reside(
    s: StateModel,
    t: StateModel,
    groups: Seq<GroupModel<(u16, ViewModel)>>,
)
    requires
        #[trigger] follows(s, t),
        #[trigger] groups_reside(s.shards, groups),
    ensures
        groups_reside(t.shards, groups),
{
    reveal(groups_reside);
    assert forall|g: int| 0 <= g < groups.len() implies (#[trigger] groups[g]).items.len() > 0
        && lefts_reside(t.shards, groups[g].items) by {
        lemma_lefts_still_reside(s, t, groups[g].items);
    }
}

proof fn lemma_grouped_resides(
    shards: Seq<ShardModel>,
    groups: Seq<GroupModel<(u16, ViewModel)>>,
    key: Seq<u32>,
    item: (u16, ViewModel),
)
    requires
        groups_reside(shards, groups),
        resides(shards, item.1.shard, item.0),
    ensures
        groups_reside(shards, groups_insert(groups, key, item)),
{
    reveal(groups_reside);
    lemma_slot_bounds(groups, key);
    let slot = slot_from(groups, key, 0);
    let more = groups_insert(groups, key, item);
    assert forall|g: int| 0 <= g < more.len() implies (#[trigger] more[g]).items.len() > 0
        && lefts_reside(shards, more[g].items) by {
        if slot < groups.len() && groups[slot].key == key {
            assert(groups[g].items.len() > 0);
        } else if g < slot {
            assert(more[g] == groups[g]);
        } else if g > slot {
            assert(more[g] == groups[g - 1]);
        }
    }
}

/// All that partial products have gathered is where it is used.
#[verifier::opaque]
pub open spec fn partials_reside(shards: Seq<ShardModel>, w: PartialModel) -> bool {
    &&& replaced_lefts_reside(shards, w.lefts)
    &&& weights_reside(shards, w.weights)
    &&& runs_reside(shards, w.runs)
    &&& copies_reside(shards, w.copies)
    &&& groups_reside(shards, w.partials)
}

pub broadcast proof fn lemma_partials_still_reside(s: StateModel, t: StateModel, w: PartialModel)
    requires
        #[trigger] follows(s, t),
        #[trigger] partials_reside(s.shards, w),
    ensures
        partials_reside(t.shards, w),
{
    broadcast use group_follows;

    reveal(partials_reside);
    lemma_groups_still_reside(s, t, w.partials);
    assert forall|i: int| 0 <= i < w.lefts.len() implies (#[trigger] w.lefts[i]).0.0
        < t.shards.len() && resides(
        t.shards,
        w.lefts[i].1.shard,
        t.shards[w.lefts[i].0.0 as int].tile,
    ) by {
        let tile = s.shards[w.lefts[i].0.0 as int].tile;
        assert(resides(s.shards, w.lefts[i].0, tile));
        assert(resides(s.shards, w.lefts[i].1.shard, tile));
    }
    assert forall|i: int| 0 <= i < w.weights.len() implies resides(
        t.shards,
        (#[trigger] w.weights[i]).1,
        w.weights[i].0.0,
    ) by {
        assert(resides(s.shards, w.weights[i].1, w.weights[i].0.0));
    }
}

/// The memory of sums is on their tiles.
#[verifier::opaque]
pub open spec fn roots_reside(shards: Seq<ShardModel>, roots: Seq<RootModel>) -> bool {
    forall|i: int|
        0 <= i < roots.len() ==> resides(shards, (#[trigger] roots[i]).initial, roots[i].tile)
            && resides(shards, roots[i].remote, roots[i].tile) && resides(
            shards,
            roots[i].result,
            roots[i].tile,
        )
}

pub broadcast proof fn lemma_roots_still_reside(
    s: StateModel,
    t: StateModel,
    roots: Seq<RootModel>,
)
    requires
        #[trigger] follows(s, t),
        #[trigger] roots_reside(s.shards, roots),
    ensures
        roots_reside(t.shards, roots),
{
    broadcast use group_follows;

    reveal(roots_reside);
    assert forall|i: int| 0 <= i < roots.len() implies resides(
        t.shards,
        (#[trigger] roots[i]).initial,
        roots[i].tile,
    ) && resides(t.shards, roots[i].remote, roots[i].tile) && resides(
        t.shards,
        roots[i].result,
        roots[i].tile,
    ) by {
        assert(resides(s.shards, roots[i].initial, roots[i].tile));
    }
}

/// All that sums have gathered is where it is used.
pub open spec fn sums_reside(shards: Seq<ShardModel>, w: SumsModel) -> bool {
    &&& roots_reside(shards, w.roots)
    &&& copies_reside(shards, w.seeds)
    &&& copies_reside(shards, w.results)
}

broadcast group group_products {
    group_follows,
    lemma_staged_still_resides,
    lemma_lefts_still_reside,
    lemma_groups_still_reside,
    lemma_pass_still_resides,
    lemma_partials_still_reside,
    lemma_roots_still_reside,
}

proof fn lemma_found_staged(
    shards: Seq<ShardModel>,
    staged: Seq<Staged>,
    tile: u16,
    column: u32,
    i: int,
)
    requires
        0 <= i,
        staged_resides(shards, staged),
    ensures
        match staged_from(staged, tile, column, i) {
            Some(id) => resides(shards, id, tile),
            None => true,
        },
    decreases staged.len() - i,
{
    if i < staged.len() {
        lemma_found_staged(shards, staged, tile, column, i + 1);
    }
}

proof fn lemma_found_left(
    shards: Seq<ShardModel>,
    left: Seq<(u16, ViewModel)>,
    tile: u16,
    i: int,
)
    requires
        0 <= i,
        lefts_reside(shards, left),
    ensures
        match left_from(left, tile, i) {
            Some(view) => resides(shards, view.shard, tile),
            None => true,
        },
    decreases left.len() - i,
{
    if i < left.len() {
        lemma_found_left(shards, left, tile, i + 1);
    }
}

proof fn lemma_found_weights(
    shards: Seq<ShardModel>,
    weights: Seq<StagedWeights>,
    tile: u16,
    source: LowShardId,
    i: int,
)
    requires
        0 <= i,
        weights_reside(shards, weights),
    ensures
        match staged_weights_from(weights, tile, source, i) {
            Some(id) => resides(shards, id, tile),
            None => true,
        },
    decreases weights.len() - i,
{
    if i < weights.len() {
        lemma_found_weights(shards, weights, tile, source, i + 1);
    }
}

proof fn lemma_found_replaced(
    shards: Seq<ShardModel>,
    lefts: Seq<(LowShardId, ViewModel)>,
    id: LowShardId,
    i: int,
)
    requires
        0 <= i,
        replaced_lefts_reside(shards, lefts),
    ensures
        match resident_left_from(lefts, id, i) {
            Some(view) => resides(shards, view.shard, shards[id.0 as int].tile),
            None => true,
        },
    decreases lefts.len() - i,
{
    if i < lefts.len() {
        lemma_found_replaced(shards, lefts, id, i + 1);
    }
}

proof fn lemma_found_output(
    shards: Seq<ShardModel>,
    outputs: Seq<LowShardId>,
    tile: u16,
    partial: TypeModel,
    extents: Seq<ShardExtent>,
    k: int,
)
    ensures
        match direct_output_from(shards, outputs, tile, partial, extents, k) {
            Some(id) => resides(shards, id, tile),
            None => true,
        },
    decreases outputs.len() - k,
{
    if k < outputs.len() {
        lemma_found_output(shards, outputs, tile, partial, extents, k + 1);
    }
}

pub proof fn lemma_dispatch_input_view<M: Target>(
    target: &M,
    s: StateModel,
    value: MidValueId,
    tile: u16,
    ranges: Seq<(usize, u32, u32)>,
    done: Movement,
)
    requires
        copies_reside(s.shards, done.1),
    ensures
        match dispatch_input_view(target, s, value, tile, ranges, done) {
            Ok((t, (more, view))) => {
                &&& follows(s, t)
                &&& resides(t.shards, view.shard, tile)
                &&& copies_reside(t.shards, more.1)
            },
            Err(_) => true,
        },
{
    broadcast use group_products;

    lemma_local_shard_resides(s, value, tile);
    if let Ok(id) = local_shard(s, value, tile) {
        if let Ok(view) = narrow_view(s.shards, id, ranges) {
            if let Some(source) = converted_from(s, value) {
                let receiving = receiving_shard(s.shards[id.0 as int], view.extents, tile);
                lemma_push_shard(s, receiving);
                if let Ok((next, staging)) = push_shard(s, receiving) {
                    if let Ok(ids) = value_shards(next, source) {
                        let parts = intersecting(next.shards, ids, view.extents, tile);
                        lemma_place_resides(
                            target,
                            next.shards,
                            onto(parts, staging),
                            staging,
                            tile,
                            ExchangeOrder::Semantic,
                            0,
                            done,
                        );
                    }
                }
            }
        }
    }
}

pub proof fn lemma_local_block(
    s: StateModel,
    plan: GemmPlan,
    interleaved: bool,
    tile: u16,
    column: u32,
    right: LowShardId,
    view: ViewModel,
    g: GemmModel,
)
    requires
        pass_resides(s.shards, g),
    ensures
        match local_block(s, plan, interleaved, tile, column, right, view, g) {
            Ok((t, (more, id))) => {
                &&& follows(s, t)
                &&& pass_resides(t.shards, more)
                &&& resides(t.shards, id, tile)
            },
            Err(_) => true,
        },
{
    broadcast use group_products;

    let existing = staged_from(g.local, tile, column, 0);
    assert(staged_resides(s.shards, g.local)) by {
        reveal(pass_resides);
    }
    lemma_found_staged(s.shards, g.local, tile, column, 0);
    let definition = if plan.streamed {
        ShardDefinition::Staging
    } else {
        match existing {
            Some(id) => ShardDefinition::Alias(id),
            None => ShardDefinition::LocalCopy(right),
        }
    };
    let block = block_shard(
        s.shards[right.0 as int],
        view.extents,
        tile,
        interleaved,
        definition,
    );
    lemma_push_shard(s, block);
    if let Ok((next, copy)) = push_shard(s, block) {
        let more = GemmModel { local: g.local.push(((tile, column), copy)), ..g };
        assert(pass_resides(next.shards, more)) by {
            assert(pass_resides(next.shards, g));
            reveal(pass_resides);
        }
    }
}

pub proof fn lemma_remote_block(
    s: StateModel,
    plan: GemmPlan,
    interleaved: bool,
    tile: u16,
    column: u32,
    right: LowShardId,
    view: ViewModel,
    g: GemmModel,
)
    requires
        pass_resides(s.shards, g),
    ensures
        match remote_block(s, plan, interleaved, tile, column, right, view, g) {
            Ok((t, (more, id))) => {
                &&& follows(s, t)
                &&& pass_resides(t.shards, more)
                &&& resides(t.shards, id, tile)
            },
            Err(_) => true,
        },
{
    broadcast use group_products;

    assert(staged_resides(s.shards, g.remote)) by {
        reveal(pass_resides);
    }
    lemma_found_staged(s.shards, g.remote, tile, column, 0);
    let block = block_shard(
        s.shards[right.0 as int],
        view.extents,
        tile,
        plan.streamed && interleaved,
        ShardDefinition::ExchangeStaging,
    );
    lemma_push_shard(s, block);
    if let Ok((next, copy)) = push_shard(s, block) {
        let more = GemmModel { remote: g.remote.push(((tile, column), copy)), ..g };
        assert(pass_resides(next.shards, more)) by {
            assert(pass_resides(next.shards, g));
            reveal(pass_resides);
        }
    }
}

proof fn lemma_packed_copies_reside(
    shards: Seq<ShardModel>,
    spans: Seq<ByteSpan>,
    source: LowShardId,
    destination: LowShardId,
    tile: u16,
    k: int,
    offset: int,
    done: Seq<(u16, LocalCopy)>,
)
    requires
        resides(shards, source, tile),
        resides(shards, destination, tile),
        copies_reside(shards, done),
    ensures
        match packed_copies_from(spans, source, destination, tile, k, offset, done) {
            Ok(copies) => copies_reside(shards, copies),
            Err(_) => true,
        },
    decreases spans.len() - k,
{
    if k < spans.len() && offset + spans[k].bytes <= u32::MAX {
        let copy = LocalCopy {
            source,
            source_offset: spans[k].offset,
            destination,
            destination_offset: offset as u32,
            bytes: spans[k].bytes,
            pattern: LocalCopyPattern::Contiguous,
        };
        assert(copies_reside(shards, done.push((tile, copy)))) by {
            reveal(copies_reside);
        }
        lemma_packed_copies_reside(
            shards,
            spans,
            source,
            destination,
            tile,
            k + 1,
            offset + spans[k].bytes,
            done.push((tile, copy)),
        );
    }
}

pub proof fn lemma_resident_right<M: Target>(
    target: &M,
    s: StateModel,
    plan: GemmPlan,
    interleaved: bool,
    tile: u16,
    column: u32,
    right: LowShardId,
    view: ViewModel,
    g: GemmModel,
)
    requires
        pass_resides(s.shards, g),
        view.shard == right,
    ensures
        match resident_right(target, s, plan, interleaved, tile, column, right, view, g) {
            Ok((t, (more, held))) => {
                &&& follows(s, t)
                &&& pass_resides(t.shards, more)
                &&& resides(t.shards, held.shard, tile)
            },
            Err(_) => true,
        },
{
    broadcast use group_products;

    reveal(pass_resides);
    if resides(s.shards, right, tile) {
        lemma_local_block(s, plan, interleaved, tile, column, right, view, g);
        if let Ok(spans) = spans_of(target, s.shards, view, ExchangeOrder::Physical) {
            if let Ok((a, (more, copy))) = local_block(
                s,
                plan,
                interleaved,
                tile,
                column,
                right,
                view,
                g,
            ) {
                lemma_packed_copies_reside(
                    a.shards,
                    spans,
                    right,
                    copy,
                    tile,
                    0,
                    0,
                    more.copies,
                );
            }
        }
    } else {
        lemma_remote_block(s, plan, interleaved, tile, column, right, view, g);
    }
}

pub proof fn lemma_left_operand<M: Target>(
    target: &M,
    s: StateModel,
    plan: GemmPlan,
    tile: u16,
    inner: (u32, u32),
    g: GemmModel,
)
    requires
        pass_resides(s.shards, g),
    ensures
        match left_operand(target, s, plan, tile, inner, g) {
            Ok((t, (more, view))) => {
                &&& follows(s, t)
                &&& pass_resides(t.shards, more)
                &&& resides(t.shards, view.shard, tile)
            },
            Err(_) => true,
        },
{
    broadcast use group_products;

    assert(lefts_reside(s.shards, g.left) && copies_reside(s.shards, g.copies)) by {
        reveal(pass_resides);
    }
    lemma_found_left(s.shards, g.left, tile, 0);
    let ranges = seq![((plan.left_rank - 1) as usize, inner.0, inner.1)];
    lemma_dispatch_input_view(target, s, plan.left, tile, ranges, (g.transfers, g.copies));
    if let Ok((next, ((transfers, copies), view))) = dispatch_input_view(
        target,
        s,
        plan.left,
        tile,
        ranges,
        (g.transfers, g.copies),
    ) {
        let more = GemmModel { transfers, copies, left: g.left.push((tile, view)), ..g };
        assert(pass_resides(next.shards, more)) by {
            assert(pass_resides(next.shards, g));
            reveal(pass_resides);
        }
    }
}

pub proof fn lemma_gemm_output<M: Target>(
    target: &M,
    s: StateModel,
    plan: GemmPlan,
    kernels: GemmKernels,
    candidates: Seq<LowShardId>,
    interleaved: bool,
    output: LowShardId,
    inner: (u32, u32),
    columns: (u32, u32),
    g: GemmModel,
)
    requires
        pass_resides(s.shards, g),
    ensures
        match gemm_output(
            target,
            s,
            plan,
            kernels,
            candidates,
            interleaved,
            output,
            inner,
            columns,
            g,
        ) {
            Ok((t, more)) => follows(s, t) && pass_resides(t.shards, more),
            Err(_) => true,
        },
{
    broadcast use group_products;

    if let Ok(to) = shard_of(s.shards, output) {
        assert(resides(s.shards, output, to.tile));
        lemma_left_operand(target, s, plan, to.tile, inner, g);
        if let Ok((a, (some, left))) = left_operand(target, s, plan, to.tile, inner, g) {
            if let Some(right) = prefer_local(a.shards, candidates, to.tile) {
                if let Ok(view) = right_block(a.shards, right, columns, inner) {
                    lemma_resident_right(
                        target,
                        a,
                        plan,
                        interleaved,
                        to.tile,
                        columns.0,
                        right,
                        view,
                        some,
                    );
                    if let Ok((b, (more, weights))) = resident_right(
                        target,
                        a,
                        plan,
                        interleaved,
                        to.tile,
                        columns.0,
                        right,
                        view,
                        some,
                    ) {
                        assert(follows(s, b));
                        if let Ok(result) = narrow_view(
                            b.shards,
                            output,
                            seq![((plan.output_rank - 1) as usize, columns.0, columns.1)],
                        ) {
                            if let Ok(held) = shard_of(b.shards, weights.shard) {
                                let run = operator_run(
                                    WorkProvenance {
                                        operation: plan.source,
                                        value: Some(plan.output),
                                        reason: WorkReason::OperatorKernel,
                                    },
                                    loading(
                                        if inner.0 == 0 {
                                            kernels.initialize
                                        } else {
                                            kernels.accumulate
                                        },
                                        held.tensor_type.format.layout.memory_class,
                                    ),
                                    seq![seq![left], seq![weights]],
                                    result,
                                    kernels.requirements,
                                );
                                lemma_binary_resides(b.shards, run, left, weights, to.tile);
                                reveal(pass_resides);
                                lemma_pushed_run_resides(b.shards, more.runs, to.tile, run);
                            }
                        }
                    }
                }
            }
        }
    }
}

pub proof fn lemma_gemm_outputs_from<M: Target>(
    target: &M,
    s: StateModel,
    plan: GemmPlan,
    kernels: GemmKernels,
    candidates: Seq<LowShardId>,
    interleaved: bool,
    outputs: Seq<LowShardId>,
    inner: (u32, u32),
    columns: (u32, u32),
    k: int,
    g: GemmModel,
)
    requires
        pass_resides(s.shards, g),
    ensures
        match gemm_outputs_from(
            target,
            s,
            plan,
            kernels,
            candidates,
            interleaved,
            outputs,
            inner,
            columns,
            k,
            g,
        ) {
            Ok((t, more)) => {
                &&& follows(s, t)
                &&& pass_resides(t.shards, more)
            },
            Err(_) => true,
        },
    decreases outputs.len() - k,
{
    broadcast use group_products;

    if k >= outputs.len() {
    } else {
        lemma_gemm_output(
            target,
            s,
            plan,
            kernels,
            candidates,
            interleaved,
            outputs[k],
            inner,
            columns,
            g,
        );
        if let Ok((next, more)) = gemm_output(
            target,
            s,
            plan,
            kernels,
            candidates,
            interleaved,
            outputs[k],
            inner,
            columns,
            g,
        ) {
            lemma_gemm_outputs_from(
                target,
                next,
                plan,
                kernels,
                candidates,
                interleaved,
                outputs,
                inner,
                columns,
                k + 1,
                more,
            );
        }
    }
}

pub proof fn lemma_gemm_column<M: Target>(
    target: &M,
    s: StateModel,
    plan: GemmPlan,
    kernels: GemmKernels,
    rights: Seq<LowShardId>,
    outputs: Seq<LowShardId>,
    inner: (u32, u32),
    columns: (u32, u32),
    g: GemmModel,
)
    requires
        pass_resides(s.shards, g),
    ensures
        match gemm_column(target, s, plan, kernels, rights, outputs, inner, columns, g) {
            Ok((t, more)) => {
                &&& follows(s, t)
                &&& pass_resides(t.shards, more)
            },
            Err(_) => true,
        },
{
    broadcast use group_products;

    let candidates = right_shards_from(s.shards, rights, columns, inner, 0, Seq::empty());
    let users = column_outputs_from(s.shards, outputs, columns, 0, Seq::empty());
    if candidates.len() == 0 {
    } else if let Ok(interleaved) = column_interleaved(
        target,
        s.shards,
        plan,
        rights,
        users,
        columns,
    ) {
        lemma_gemm_outputs_from(
            target,
            s,
            plan,
            kernels,
            candidates,
            interleaved,
            users,
            inner,
            columns,
            0,
            g,
        );
    }
}

pub proof fn lemma_gemm_columns_from<M: Target>(
    target: &M,
    s: StateModel,
    plan: GemmPlan,
    kernels: GemmKernels,
    rights: Seq<LowShardId>,
    outputs: Seq<LowShardId>,
    inner: (u32, u32),
    c: int,
    g: GemmModel,
)
    requires
        pass_resides(s.shards, g),
    ensures
        match gemm_columns_from(target, s, plan, kernels, rights, outputs, inner, c, g) {
            Ok((t, more)) => {
                &&& follows(s, t)
                &&& pass_resides(t.shards, more)
            },
            Err(_) => true,
        },
    decreases plan.column_blocks - c,
{
    broadcast use group_products;

    if c >= plan.column_blocks {
    } else {
        lemma_gemm_column(
            target,
            s,
            plan,
            kernels,
            rights,
            outputs,
            inner,
            block_range(c, plan.column_block),
            g,
        );
        if let Ok((next, more)) = gemm_column(
            target,
            s,
            plan,
            kernels,
            rights,
            outputs,
            inner,
            block_range(c, plan.column_block),
            g,
        ) {
            lemma_gemm_columns_from(
                target,
                next,
                plan,
                kernels,
                rights,
                outputs,
                inner,
                c + 1,
                more,
            );
        }
    }
}

pub proof fn lemma_gemm_pass<M: Target>(
    target: &M,
    s: StateModel,
    plan: GemmPlan,
    kernels: GemmKernels,
    rights: Seq<LowShardId>,
    outputs: Seq<LowShardId>,
    k: int,
    local: Seq<Staged>,
    remote: Seq<Staged>,
)
    requires
        staged_resides(s.shards, local),
        staged_resides(s.shards, remote),
    ensures
        match gemm_pass(target, s, plan, kernels, rights, outputs, k, local, remote) {
            Ok((t, (more_local, more_remote))) => {
                &&& follows(s, t)
                &&& staged_resides(t.shards, more_local)
                &&& staged_resides(t.shards, more_remote)
            },
            Err(_) => true,
        },
{
    broadcast use group_products;

    assert(pass_resides(s.shards, fresh_pass(local, remote))) by {
        reveal(pass_resides);
        lemma_no_runs_reside(s.shards);
        lemma_no_copies_reside(s.shards);
    }
    lemma_gemm_columns_from(
        target,
        s,
        plan,
        kernels,
        rights,
        outputs,
        block_range(k, plan.inner_block),
        0,
        fresh_pass(local, remote),
    );
    if let Ok((a, g)) = gemm_columns_from(
        target,
        s,
        plan,
        kernels,
        rights,
        outputs,
        block_range(k, plan.inner_block),
        0,
        fresh_pass(local, remote),
    ) {
        lemma_append_ordered_phase(
            a,
            g.transfers,
            pass_provenance(a, plan),
            ExchangeOrder::Semantic,
        );
        if let Ok(b) = append_ordered_phase(
            a,
            g.transfers,
            pass_provenance(a, plan),
            ExchangeOrder::Semantic,
        ) {
            assert(pass_resides(b.shards, g));
            assert(copies_reside(b.shards, g.copies)) by {
                reveal(pass_resides);
            }
            lemma_append_copies_from(b, g.copies, 0);
            if let Ok(c) = append_copies_from(b, g.copies, 0) {
                assert(pass_resides(c.shards, g));
                reveal(pass_resides);
                lemma_append_kernels_from(c, g.runs, 0);
            }
        }
    }
}

pub proof fn lemma_gemm_passes_from<M: Target>(
    target: &M,
    s: StateModel,
    plan: GemmPlan,
    kernels: GemmKernels,
    rights: Seq<LowShardId>,
    outputs: Seq<LowShardId>,
    k: int,
    local: Seq<Staged>,
    remote: Seq<Staged>,
)
    requires
        staged_resides(s.shards, local),
        staged_resides(s.shards, remote),
    ensures
        match gemm_passes_from(target, s, plan, kernels, rights, outputs, k, local, remote) {
            Ok(t) => follows(s, t),
            Err(_) => true,
        },
    decreases plan.inner_blocks - k,
{
    broadcast use group_products;

    if k >= plan.inner_blocks {
    } else {
        lemma_gemm_pass(target, s, plan, kernels, rights, outputs, k, local, remote);
        if let Ok((next, (more_local, more_remote))) = gemm_pass(
            target,
            s,
            plan,
            kernels,
            rights,
            outputs,
            k,
            local,
            remote,
        ) {
            lemma_gemm_passes_from(
                target,
                next,
                plan,
                kernels,
                rights,
                outputs,
                k + 1,
                more_local,
                more_remote,
            );
        }
    }
}

pub proof fn lemma_lower_resident_gemm<M: Target>(
    target: &M,
    s: StateModel,
    operation: MidOperation,
    kernels: GemmKernels,
    inner_block: u32,
    column_block: u32,
    streamed: bool,
)
    ensures
        match lower_resident_gemm(
            target,
            s,
            operation,
            kernels,
            inner_block,
            column_block,
            streamed,
        ) {
            Ok(t) => follows(s, t),
            Err(_) => true,
        },
{
    broadcast use group_products;

    if operation.inputs@.len() != 2 {
    } else if operation.results@.len() != 1 {
    } else if inner_block == 0 || column_block == 0 {
    } else if let Ok(lefts) = value_shards(s, operation.inputs@[0]) {
        if let Ok(rights) = value_shards(s, operation.inputs@[1]) {
            if let Ok(outputs) = value_shards(s, operation.results@[0]) {
                lemma_lower_resident_product(
                    target,
                    s,
                    operation,
                    kernels,
                    inner_block,
                    column_block,
                    streamed,
                    lefts,
                    rights,
                    outputs,
                );
            }
        }
    }
}

pub proof fn lemma_lower_resident_product<M: Target>(
    target: &M,
    s: StateModel,
    operation: MidOperation,
    kernels: GemmKernels,
    inner_block: u32,
    column_block: u32,
    streamed: bool,
    lefts: Seq<LowShardId>,
    rights: Seq<LowShardId>,
    outputs: Seq<LowShardId>,
)
    ensures
        match lower_resident_product(
            target,
            s,
            operation,
            kernels,
            inner_block,
            column_block,
            streamed,
            lefts,
            rights,
            outputs,
        ) {
            Ok(t) => follows(s, t),
            Err(_) => true,
        },
{
    broadcast use group_products;

    if let Ok(left) = shard_of(s.shards, lefts[0]) {
        if let Ok(output) = shard_of(s.shards, outputs[0]) {
            if left.tensor_type.shape.len() < 2 || output.tensor_type.shape.len() < 2 {
            } else if let Ok(inner) = padded_axis(target, left) {
                if let Ok(columns) = padded_axis(target, output) {
                    if inner % inner_block != 0 || columns % column_block != 0 || (columns == 0
                        && !streamed) {
                    } else if let Ok(interleaved) = (
                        if streamed {
                            streams_interleaved(
                                target,
                                s.shards,
                                outputs,
                                kernels.requirements,
                                inner_block,
                                column_block,
                            )
                        } else { Ok(false) }
                    ) {
                        lemma_gemm_passes_from(
                            target,
                            s,
                            GemmPlan {
                                source: operation.source,
                                left: operation.inputs@[0],
                                right: operation.inputs@[1],
                                output: operation.results@[0],
                                inner_block,
                                column_block,
                                inner_blocks: (inner / inner_block) as u32,
                                column_blocks: (columns / column_block) as u32,
                                left_rank: left.tensor_type.shape.len() as usize,
                                output_rank: output.tensor_type.shape.len() as usize,
                                access_tail: kernels.requirements.inputs[1].access_tail_bytes,
                                local_staging: kernels.requirements.inputs[1].local_staging,
                                streamed,
                                interleaved,
                            },
                            kernels,
                            rights,
                            outputs,
                            0,
                            Seq::empty(),
                            Seq::empty(),
                        );
                    }
                }
            }
        }
    }
}

pub proof fn lemma_resident_left<M: Target>(
    target: &M,
    s: StateModel,
    plan: ReductionPlan,
    id: LowShardId,
    w: PartialModel,
)
    requires
        id.0 < s.shards.len(),
        partials_reside(s.shards, w),
    ensures
        match resident_left(target, s, plan, id, w) {
            Ok((t, (more, view))) => {
                &&& follows(s, t)
                &&& partials_reside(t.shards, more)
                &&& resides(t.shards, view.shard, s.shards[id.0 as int].tile)
            },
            Err(_) => true,
        },
{
    broadcast use group_products;

    let tile = s.shards[id.0 as int].tile;
    let ranges = whole_ranges(s.shards[id.0 as int].extents);
    assert(replaced_lefts_reside(s.shards, w.lefts) && copies_reside(s.shards, w.copies)) by {
        reveal(partials_reside);
    }
    lemma_found_replaced(s.shards, w.lefts, id, 0);
    lemma_dispatch_input_view(target, s, plan.left, tile, ranges, (w.transfers, w.copies));
    if let Ok((next, ((transfers, copies), view))) = dispatch_input_view(
        target,
        s,
        plan.left,
        tile,
        ranges,
        (w.transfers, w.copies),
    ) {
        let more = PartialModel { transfers, copies, lefts: w.lefts.push((id, view)), ..w };
        assert(resides(s.shards, id, tile));
        assert(partials_reside(next.shards, more)) by {
            assert(partials_reside(next.shards, w));
            reveal(partials_reside);
        }
    }
}

pub proof fn lemma_partial_storage(
    s: StateModel,
    outputs: Seq<LowShardId>,
    tile: u16,
    partial: TypeModel,
    extents: Seq<ShardExtent>,
)
    ensures
        match partial_storage(s, outputs, tile, partial, extents) {
            Ok((t, id)) => {
                &&& follows(s, t)
                &&& resides(t.shards, id, tile)
            },
            Err(_) => true,
        },
{
    broadcast use group_products;

    lemma_found_output(s.shards, outputs, tile, partial, extents, 0);
    match direct_output_from(s.shards, outputs, tile, partial, extents, 0) {
        Some(id) => {},
        None => {
            lemma_push_shard(
                s,
                ShardModel {
                    id: LowShardId(0),
                    tile,
                    tensor_type: partial,
                    extents,
                    definition: ShardDefinition::Staging,
                },
            );
        },
    }
}

pub proof fn lemma_weights_storage(
    s: StateModel,
    plan: ReductionPlan,
    rights: Seq<LowShardId>,
    inner: ShardExtent,
    tile: u16,
    columns: (u32, u32),
    w: PartialModel,
)
    requires
        partials_reside(s.shards, w),
    ensures
        match weights_storage(s, plan, rights, inner, tile, columns, w) {
            Ok((t, (more, weights))) => {
                &&& follows(s, t)
                &&& partials_reside(t.shards, more)
                &&& weights matches Some(id) ==> resides(t.shards, id, tile)
            },
            Err(_) => true,
        },
{
    broadcast use group_products;

    if let Ok(first) = weight_source(
        s.shards,
        rights,
        plan.axes,
        (inner.start, first_panel_end(inner, plan.panel_block)),
        columns,
    ) {
        assert(weights_reside(s.shards, w.weights)) by {
            reveal(partials_reside);
        }
        lemma_found_weights(s.shards, w.weights, tile, first, 0);
        let staging = weight_staging(s.shards[first.0 as int], plan.axes, inner, tile);
        lemma_push_shard(s, staging);
        if let Ok((next, id)) = push_shard(s, staging) {
            let more = PartialModel { weights: w.weights.push(((tile, first), id)), ..w };
            assert(partials_reside(next.shards, more)) by {
                assert(partials_reside(next.shards, w));
                reveal(partials_reside);
            }
        }
    }
}

/// The parts of weights that are used in place are on the tile.
pub open spec fn direct_panels_reside(
    shards: Seq<ShardModel>,
    sources: Seq<PanelSource>,
    tile: u16,
) -> bool {
    forall|i: int|
        0 <= i < sources.len() && (#[trigger] sources[i]).1 ==> resides(
            shards,
            sources[i].0.shard,
            tile,
        )
}

proof fn lemma_bring_panels<M: Target>(
    target: &M,
    shards: Seq<ShardModel>,
    plan: ReductionPlan,
    rights: Seq<LowShardId>,
    weights: Option<LowShardId>,
    tile: u16,
    start: int,
    end: int,
    columns: (u32, u32),
    w: PartialModel,
    done: Seq<PanelSource>,
)
    requires
        direct_panels_reside(shards, done, tile),
        copies_reside(shards, w.copies),
        weights matches Some(id) ==> resides(shards, id, tile),
    ensures
        match bring_panels_from(
            target,
            shards,
            plan,
            rights,
            weights,
            tile,
            start,
            end,
            columns,
            w,
            done,
        ) {
            Ok((more, sources)) => {
                &&& direct_panels_reside(shards, sources, tile)
                &&& more.runs == w.runs && more.lefts == w.lefts && more.weights == w.weights
                &&& more.partials == w.partials && copies_reside(shards, more.copies)
            },
            Err(_) => true,
        },
    decreases
            (if start < end {
                end - start
            } else {
                0
            }),
{
    if start < end && plan.panel_block > 0 && start + plan.panel_block <= u32::MAX {
        let inner = (start as u32, (start + plan.panel_block) as u32);
        if let Ok(source) = weight_source(shards, rights, plan.axes, inner, columns) {
            if let Ok(view) = weight_block(shards, source, plan.axes, inner, columns) {
                if let Ok(into) = staged_block(shards, weights, plan.axes, inner, columns) {
                    if resides(shards, source, tile) {
                        lemma_view_copies_reside(
                            target,
                            shards,
                            view,
                            into,
                            tile,
                            ExchangeOrder::Semantic,
                            w.copies,
                        );
                    }
                }
            }
        }
        if let Ok((more, source)) = bring_panel(
            target,
            shards,
            plan,
            rights,
            weights,
            tile,
            (start as u32, (start + plan.panel_block) as u32),
            columns,
            w,
        ) {
            lemma_bring_panels(
                target,
                shards,
                plan,
                rights,
                weights,
                tile,
                start + plan.panel_block,
                end,
                columns,
                more,
                done.push(source),
            );
        }
    }
}

proof fn lemma_partial_run(
    shards: Seq<ShardModel>,
    plan: ReductionPlan,
    kernels: GemmKernels,
    initial: bool,
    left: LowShardId,
    weights: ViewModel,
    partial: ViewModel,
    tile: u16,
    inner: (u32, u32),
    columns: (u32, u32),
    w: PartialModel,
)
    requires
        partials_reside(shards, w),
        resides(shards, left, tile),
        resides(shards, weights.shard, tile),
        resides(shards, partial.shard, tile),
    ensures
        match add_partial_run(
            shards,
            plan,
            kernels,
            initial,
            left,
            weights,
            partial,
            tile,
            inner,
            columns,
            w,
        ) {
            Ok(more) => partials_reside(shards, more),
            Err(_) => true,
        },
{
    reveal(partials_reside);
    if let Ok(more) = add_partial_run(
        shards,
        plan,
        kernels,
        initial,
        left,
        weights,
        partial,
        tile,
        inner,
        columns,
        w,
    ) {
        let run = more.runs.last().1;
        lemma_binary_resides(shards, run, run.inputs[0][0], weights, tile);
        lemma_pushed_run_resides(shards, w.runs, tile, run);
    }
}

proof fn lemma_panel_runs(
    shards: Seq<ShardModel>,
    plan: ReductionPlan,
    kernels: GemmKernels,
    first_block: bool,
    left: LowShardId,
    weights: Option<LowShardId>,
    sources: Seq<PanelSource>,
    partial: ViewModel,
    tile: u16,
    start: int,
    columns: (u32, u32),
    p: int,
    w: PartialModel,
)
    requires
        0 <= p,
        partials_reside(shards, w),
        resides(shards, left, tile),
        weights matches Some(id) ==> resides(shards, id, tile),
        resides(shards, partial.shard, tile),
        direct_panels_reside(shards, sources, tile),
    ensures
        match add_panel_runs_from(
            shards,
            plan,
            kernels,
            first_block,
            left,
            weights,
            sources,
            partial,
            tile,
            start,
            columns,
            p,
            w,
        ) {
            Ok(more) => partials_reside(shards, more),
            Err(_) => true,
        },
    decreases sources.len() - p,
{
    if p < sources.len() {
        let inner = (
            (start + p * plan.panel_block) as u32,
            (start + (p + 1) * plan.panel_block) as u32,
        );
        if let Ok(view) = (if sources[p].1 {
            Ok(sources[p].0)
        } else {
            staged_block(shards, weights, plan.axes, inner, columns)
        }) {
            lemma_partial_run(
                shards,
                plan,
                kernels,
                first_block && p == 0,
                left,
                view,
                partial,
                tile,
                inner,
                columns,
                w,
            );
            if let Ok(more) = add_partial_run(
                shards,
                plan,
                kernels,
                first_block && p == 0,
                left,
                view,
                partial,
                tile,
                inner,
                columns,
                w,
            ) {
                lemma_panel_runs(
                    shards,
                    plan,
                    kernels,
                    first_block,
                    left,
                    weights,
                    sources,
                    partial,
                    tile,
                    start,
                    columns,
                    p + 1,
                    more,
                );
            }
        }
    }
}

proof fn lemma_block_runs(
    shards: Seq<ShardModel>,
    plan: ReductionPlan,
    kernels: GemmKernels,
    first_block: bool,
    left: LowShardId,
    weights: Option<LowShardId>,
    sources: Seq<PanelSource>,
    partial: ViewModel,
    tile: u16,
    inner: (u32, u32),
    columns: (u32, u32),
    w: PartialModel,
)
    requires
        partials_reside(shards, w),
        resides(shards, left, tile),
        weights matches Some(id) ==> resides(shards, id, tile),
        resides(shards, partial.shard, tile),
        direct_panels_reside(shards, sources, tile),
    ensures
        match add_block_runs(
            shards,
            plan,
            kernels,
            first_block,
            left,
            weights,
            sources,
            partial,
            tile,
            inner,
            columns,
            w,
        ) {
            Ok(more) => partials_reside(shards, more),
            Err(_) => true,
        },
{
    if sources.len() > 1 && any_direct(sources) {
        lemma_panel_runs(
            shards,
            plan,
            kernels,
            first_block,
            left,
            weights,
            sources,
            partial,
            tile,
            inner.0 as int,
            columns,
            0,
            w,
        );
    } else if let Ok(view) = (if sources.len() == 1 && sources[0].1 {
        Ok(sources[0].0)
    } else {
        staged_block(shards, weights, plan.axes, inner, columns)
    }) {
        lemma_partial_run(
            shards,
            plan,
            kernels,
            first_block,
            left,
            view,
            partial,
            tile,
            inner,
            columns,
            w,
        );
    }
}

proof fn lemma_blocks<M: Target>(
    target: &M,
    shards: Seq<ShardModel>,
    plan: ReductionPlan,
    kernels: GemmKernels,
    rights: Seq<LowShardId>,
    left: LowShardId,
    weights: Option<LowShardId>,
    partial: ViewModel,
    tile: u16,
    inner: ShardExtent,
    columns: (u32, u32),
    start: int,
    w: PartialModel,
)
    requires
        partials_reside(shards, w),
        resides(shards, left, tile),
        weights matches Some(id) ==> resides(shards, id, tile),
        resides(shards, partial.shard, tile),
    ensures
        match add_blocks_from(
            target,
            shards,
            plan,
            kernels,
            rights,
            left,
            weights,
            partial,
            tile,
            inner,
            columns,
            start,
            w,
        ) {
            Ok(more) => partials_reside(shards, more),
            Err(_) => true,
        },
    decreases
            (if start < inner.physical_end {
                inner.physical_end - start
            } else {
                0
            }),
{
    if start < inner.physical_end && plan.inner_block > 0 {
        let end = start + plan.inner_block;
        assert(copies_reside(shards, w.copies)) by {
            reveal(partials_reside);
        }
        lemma_bring_panels(
            target,
            shards,
            plan,
            rights,
            weights,
            tile,
            start,
            end,
            columns,
            w,
            Seq::empty(),
        );
        if let Ok((more, sources)) = bring_panels_from(
            target,
            shards,
            plan,
            rights,
            weights,
            tile,
            start,
            end,
            columns,
            w,
            Seq::empty(),
        ) {
            assert(partials_reside(shards, more)) by {
                reveal(partials_reside);
            }
            lemma_block_runs(
                shards,
                plan,
                kernels,
                start == inner.start,
                left,
                weights,
                sources,
                partial,
                tile,
                (start as u32, end as u32),
                columns,
                more,
            );
            if let Ok(most) = add_block_runs(
                shards,
                plan,
                kernels,
                start == inner.start,
                left,
                weights,
                sources,
                partial,
                tile,
                (start as u32, end as u32),
                columns,
                more,
            ) {
                lemma_blocks(
                    target,
                    shards,
                    plan,
                    kernels,
                    rights,
                    left,
                    weights,
                    partial,
                    tile,
                    inner,
                    columns,
                    end,
                    most,
                );
            }
        }
    }
}

pub proof fn lemma_contribute<M: Target>(
    target: &M,
    s: StateModel,
    plan: ReductionPlan,
    kernels: GemmKernels,
    rights: Seq<LowShardId>,
    outputs: Seq<LowShardId>,
    partial: TypeModel,
    left: ShardModel,
    resident: LowShardId,
    columns: Columns,
    w: PartialModel,
)
    requires
        partials_reside(s.shards, w),
        resides(s.shards, resident, left.tile),
    ensures
        match contribute(
            target,
            s,
            plan,
            kernels,
            rights,
            outputs,
            partial,
            left,
            resident,
            columns,
            w,
        ) {
            Ok((t, more)) => {
                &&& follows(s, t)
                &&& partials_reside(t.shards, more)
            },
            Err(_) => true,
        },
{
    broadcast use group_products;

    if let Ok(resolved) = target.spec_resolve(partial.format.layout, partial.shape) {
        if partial.shape.len() != plan.axes.output_rank
            || resolved.padded_shape.len() != partial.shape.len()
            || plan.axes.output_rank > u16::MAX
            || (
                plan.orientation == GemmOrientation::Normal
                    && left.extents.len() < plan.axes.output_rank - 2
            ) {
            } else {
            let extents = partial_extents(
                plan,
                left.extents,
                partial.shape,
                resolved.padded_shape,
                columns,
            );
            let inner = left.extents[plan.axes.left_inner as int];
            lemma_partial_storage(s, outputs, left.tile, partial, extents);
            if let Ok((a, id)) = partial_storage(s, outputs, left.tile, partial, extents) {
                let view = ViewModel { shard: id, extents };
                let recorded = record_partial(w, left.tile, view);
                assert(partials_reside(a.shards, recorded)) by {
                    assert(partials_reside(a.shards, w));
                    reveal(partials_reside);
                    lemma_grouped_resides(
                        a.shards,
                        w.partials,
                        footprint_key(extents),
                        (left.tile, view),
                    );
                }
                lemma_weights_storage(
                    a,
                    plan,
                    rights,
                    inner,
                    left.tile,
                    (columns.0, columns.2),
                    recorded,
                );
                if let Ok((b, (more, weights))) = weights_storage(
                    a,
                    plan,
                    rights,
                    inner,
                    left.tile,
                    (columns.0, columns.2),
                    recorded,
                ) {
                    assert(follows(s, b));
                    lemma_blocks(
                        target,
                        b.shards,
                        plan,
                        kernels,
                        rights,
                        resident,
                        weights,
                        view,
                        left.tile,
                        inner,
                        (columns.0, columns.2),
                        inner.start as int,
                        more,
                    );
                }
            }
        }
    }
}

pub proof fn lemma_add_left<M: Target>(
    target: &M,
    s: StateModel,
    plan: ReductionPlan,
    kernels: GemmKernels,
    rights: Seq<LowShardId>,
    outputs: Seq<LowShardId>,
    partial: TypeModel,
    left: LowShardId,
    computes: bool,
    columns: Columns,
    w: PartialModel,
)
    requires
        partials_reside(s.shards, w),
    ensures
        match add_left(
            target,
            s,
            plan,
            kernels,
            rights,
            outputs,
            partial,
            left,
            computes,
            columns,
            w,
        ) {
            Ok((t, more)) => {
                &&& follows(s, t)
                &&& partials_reside(t.shards, more)
            },
            Err(_) => true,
        },
{
    broadcast use group_products;

    if let Ok(shard) = shard_of(s.shards, left) {
        lemma_resident_left(target, s, plan, left, w);
        if let Ok((a, (more, view))) = resident_left(target, s, plan, left, w) {
            if plan.axes.left_inner >= shard.extents.len()
                || plan.axes.left_row >= shard.extents.len() {
            } else {
                let inner = shard.extents[plan.axes.left_inner as int];
                if inner.physical_end < inner.start
                    || (inner.physical_end - inner.start) % (plan.inner_block as int) != 0 {
                } else if !computes {
                } else {
                    lemma_contribute(
                        target,
                        a,
                        plan,
                        kernels,
                        rights,
                        outputs,
                        partial,
                        shard,
                        view.shard,
                        columns,
                        more,
                    );
                }
            }
        }
    }
}

pub proof fn lemma_add_lefts_from<M: Target>(
    target: &M,
    s: StateModel,
    plan: ReductionPlan,
    kernels: GemmKernels,
    lefts: Seq<LowShardId>,
    replicas: Seq<u32>,
    rights: Seq<LowShardId>,
    outputs: Seq<LowShardId>,
    partial: TypeModel,
    partition: int,
    columns: Columns,
    k: int,
    w: PartialModel,
)
    requires
        partials_reside(s.shards, w),
    ensures
        match add_lefts_from(
            target,
            s,
            plan,
            kernels,
            lefts,
            replicas,
            rights,
            outputs,
            partial,
            partition,
            columns,
            k,
            w,
        ) {
            Ok((t, more)) => {
                &&& follows(s, t)
                &&& partials_reside(t.shards, more)
            },
            Err(_) => true,
        },
    decreases lefts.len() - k,
{
    broadcast use group_products;

    if k >= lefts.len() {
    } else {
        lemma_add_left(
            target,
            s,
            plan,
            kernels,
            rights,
            outputs,
            partial,
            lefts[k],
            replicas[k] == partition,
            columns,
            w,
        );
        if let Ok((next, more)) = add_left(
            target,
            s,
            plan,
            kernels,
            rights,
            outputs,
            partial,
            lefts[k],
            replicas[k] == partition,
            columns,
            w,
        ) {
            lemma_add_lefts_from(
                target,
                next,
                plan,
                kernels,
                lefts,
                replicas,
                rights,
                outputs,
                partial,
                partition,
                columns,
                k + 1,
                more,
            );
        }
    }
}

pub proof fn lemma_add_partitions_from<M: Target>(
    target: &M,
    s: StateModel,
    plan: ReductionPlan,
    kernels: GemmKernels,
    lefts: Seq<LowShardId>,
    replicas: Seq<u32>,
    rights: Seq<LowShardId>,
    outputs: Seq<LowShardId>,
    partial: TypeModel,
    partitions: Seq<Columns>,
    p: int,
    w: PartialModel,
)
    requires
        partials_reside(s.shards, w),
    ensures
        match add_partitions_from(
            target,
            s,
            plan,
            kernels,
            lefts,
            replicas,
            rights,
            outputs,
            partial,
            partitions,
            p,
            w,
        ) {
            Ok((t, more)) => {
                &&& follows(s, t)
                &&& partials_reside(t.shards, more)
            },
            Err(_) => true,
        },
    decreases partitions.len() - p,
{
    broadcast use group_products;

    if p >= partitions.len() {
    } else if !computable(partitions[p], plan.column_block) {
    } else {
        lemma_add_lefts_from(
            target,
            s,
            plan,
            kernels,
            lefts,
            replicas,
            rights,
            outputs,
            partial,
            p,
            partitions[p],
            0,
            w,
        );
        if let Ok((next, more)) = add_lefts_from(
            target,
            s,
            plan,
            kernels,
            lefts,
            replicas,
            rights,
            outputs,
            partial,
            p,
            partitions[p],
            0,
            w,
        ) {
            lemma_add_partitions_from(
                target,
                next,
                plan,
                kernels,
                lefts,
                replicas,
                rights,
                outputs,
                partial,
                partitions,
                p + 1,
                more,
            );
        }
    }
}

pub proof fn lemma_root_buffers(s: StateModel, plan: ReductionPlan, tile: u16, elements: u32)
    ensures
        match root_buffers(s, plan, tile, elements) {
            Ok((t, (initial, remote, result))) => {
                &&& follows(s, t)
                &&& resides(t.shards, initial, tile)
                &&& resides(t.shards, remote, tile)
                &&& resides(t.shards, result, tile)
            },
            Err(_) => true,
        },
{
    broadcast use group_products;

    lemma_push_shard(s, packed_buffer(tile, elements, Precision::F16, ShardDefinition::Staging));
    if let Ok((a, initial)) = push_shard(
        s,
        packed_buffer(tile, elements, Precision::F16, ShardDefinition::Staging),
    ) {
        if elements * partials_per_stage(plan) > u32::MAX {
        } else {
            lemma_push_shard(
                a,
                packed_buffer(
                    tile,
                    (elements * partials_per_stage(plan)) as u32,
                    Precision::F16,
                    ShardDefinition::ExchangeStaging,
                ),
            );
            if let Ok((b, remote)) = push_shard(
                a,
                packed_buffer(
                    tile,
                    (elements * partials_per_stage(plan)) as u32,
                    Precision::F16,
                    ShardDefinition::ExchangeStaging,
                ),
            ) {
                lemma_push_shard(
                    b,
                    packed_buffer(tile, elements, Precision::F16, ShardDefinition::Staging),
                );
            }
        }
    }
}

proof fn lemma_seed_position(partials: Seq<(u16, ViewModel)>, tile: u16, i: int)
    requires
        0 <= i,
        partials.len() > 0,
    ensures
        0 <= seed_position(partials, tile, i) < partials.len(),
    decreases partials.len() - i,
{
    if i < partials.len() {
        lemma_seed_position(partials, tile, i + 1);
    }
}

pub proof fn lemma_add_root<M: Target>(
    target: &M,
    s: StateModel,
    plan: ReductionPlan,
    partials: Seq<(u16, ViewModel)>,
    output: LowShardId,
    tile: u16,
    part: Seq<ShardExtent>,
    elements: u32,
    w: SumsModel,
)
    requires
        sums_reside(s.shards, w),
        partials.len() > 0,
        lefts_reside(s.shards, partials),
        resides(s.shards, output, tile),
    ensures
        match add_root(target, s, plan, partials, output, tile, part, elements, w) {
            Ok((t, more)) => {
                &&& follows(s, t)
                &&& sums_reside(t.shards, more)
            },
            Err(_) => true,
        },
{
    broadcast use group_products;

    lemma_root_buffers(s, plan, tile, elements);
    if let Ok((next, (initial, remote, result))) = root_buffers(s, plan, tile, elements) {
        lemma_seed_position(partials, tile, 0);
        let seed = seed_position(partials, tile, 0);
        let source = part_of(partials[seed].1, part);
        assert(resides(s.shards, partials[seed].1.shard, partials[seed].0));
        if partials[seed].0 == tile {
            lemma_view_copies_reside(
                target,
                next.shards,
                source,
                row_view(initial, 0, elements as int),
                tile,
                ExchangeOrder::Physical,
                w.seeds,
            );
        }
        lemma_view_copies_reside(
            target,
            next.shards,
            row_view(
                if stage_count(plan) % 2 == 0 {
                    initial
                } else {
                    result
                },
                0,
                elements as int,
            ),
            ViewModel { shard: output, extents: part },
            tile,
            ExchangeOrder::Physical,
            w.results,
        );
    }
    if let Ok((t, more)) = add_root(target, s, plan, partials, output, tile, part, elements, w) {
        assert(roots_reside(t.shards, w.roots));
        assert(roots_reside(t.shards, more.roots)) by {
            reveal(roots_reside);
        }
    }
}

pub proof fn lemma_add_roots_from<M: Target>(
    target: &M,
    s: StateModel,
    plan: ReductionPlan,
    partials: Seq<(u16, ViewModel)>,
    outputs: Seq<LowShardId>,
    expected: int,
    k: int,
    covered: int,
    w: SumsModel,
)
    requires
        sums_reside(s.shards, w),
        partials.len() > 0,
        lefts_reside(s.shards, partials),
    ensures
        match add_roots_from(target, s, plan, partials, outputs, expected, k, covered, w) {
            Ok((t, more)) => {
                &&& follows(s, t)
                &&& sums_reside(t.shards, more)
            },
            Err(_) => true,
        },
    decreases outputs.len() - k,
{
    broadcast use group_products;

    if k >= outputs.len() {
    } else if let Ok(owner) = shard_of(s.shards, outputs[k]) {
        assert(resides(s.shards, outputs[k], owner.tile));
        match padded_intersection(owner.extents, partials[0].1.extents) {
            None => {
                lemma_add_roots_from(
                    target,
                    s,
                    plan,
                    partials,
                    outputs,
                    expected,
                    k + 1,
                    covered,
                    w,
                );
            },
            Some(part) => {
                if let Ok(elements) = volume(part, u32::MAX as int) {
                    if elements == 0 || elements % 8 != 0 {
                    } else if covered + elements > u64::MAX {
                    } else {
                        lemma_add_root(
                            target,
                            s,
                            plan,
                            partials,
                            outputs[k],
                            owner.tile,
                            part,
                            elements as u32,
                            w,
                        );
                        if let Ok((next, more)) = add_root(
                            target,
                            s,
                            plan,
                            partials,
                            outputs[k],
                            owner.tile,
                            part,
                            elements as u32,
                            w,
                        ) {
                            lemma_add_roots_from(
                                target,
                                next,
                                plan,
                                partials,
                                outputs,
                                expected,
                                k + 1,
                                covered + elements,
                                more,
                            );
                        }
                    }
                }
            },
        }
    }
}

pub proof fn lemma_add_groups_from<M: Target>(
    target: &M,
    s: StateModel,
    plan: ReductionPlan,
    groups: Seq<GroupModel<(u16, ViewModel)>>,
    outputs: Seq<LowShardId>,
    g: int,
    w: SumsModel,
)
    requires
        0 <= g,
        sums_reside(s.shards, w),
        groups_reside(s.shards, groups),
    ensures
        match add_groups_from(target, s, plan, groups, outputs, g, w) {
            Ok((t, more)) => {
                &&& follows(s, t)
                &&& sums_reside(t.shards, more)
            },
            Err(_) => true,
        },
    decreases groups.len() - g,
{
    broadcast use group_products;

    if g >= groups.len() {
    } else if let Ok(expected) = volume(groups[g].items[0].1.extents, u64::MAX as int) {
        assert(groups[g].items.len() > 0 && lefts_reside(s.shards, groups[g].items)) by {
            reveal(groups_reside);
        }
        lemma_add_roots_from(target, s, plan, groups[g].items, outputs, expected, 0, 0, w);
        if let Ok((next, more)) = add_roots_from(
            target,
            s,
            plan,
            groups[g].items,
            outputs,
            expected,
            0,
            0,
            w,
        ) {
            lemma_add_groups_from(target, next, plan, groups, outputs, g + 1, more);
        }
    }
}

proof fn lemma_stage_runs(
    shards: Seq<ShardModel>,
    plan: ReductionPlan,
    requirements: OperatorRequirementsModel,
    roots: Seq<RootModel>,
    stage: int,
    i: int,
    done: Seq<(u16, RunModel)>,
)
    requires
        0 <= i,
        roots_reside(shards, roots),
        runs_reside(shards, done),
    ensures
        runs_reside(shards, stage_runs_from(plan, requirements, roots, stage, i, done)),
    decreases roots.len() - i,
{
    if i < roots.len() {
        let run = root_run(plan, requirements, roots[i], stage);
        assert(run_resides(shards, run, roots[i].tile)) by {
            reveal(roots_reside);
            lemma_binary_resides(
                shards,
                run,
                run.inputs[0][0],
                run.inputs[1][0],
                roots[i].tile,
            );
        }
        lemma_pushed_run_resides(shards, done, roots[i].tile, run);
        lemma_stage_runs(
            shards,
            plan,
            requirements,
            roots,
            stage,
            i + 1,
            if chunk_len(roots[i], partials_per_stage(plan), stage) == 0 {
                done
            } else {
                done.push((roots[i].tile, run))
            },
        );
    }
}

pub proof fn lemma_append_stage(
    s: StateModel,
    plan: ReductionPlan,
    requirements: OperatorRequirementsModel,
    w: SumsModel,
    stage: int,
)
    requires
        sums_reside(s.shards, w),
    ensures
        match append_stage(s, plan, requirements, w, stage) {
            Ok(t) => follows(s, t),
            Err(_) => true,
        },
{
    broadcast use group_products;

    lemma_append_ordered_phase(
        s,
        stage_transfers_from(w.roots, partials_per_stage(plan), stage, 0, Seq::empty()),
        WorkProvenance {
            operation: plan.source,
            value: Some(plan.output),
            reason: WorkReason::OperatorInputs,
        },
        ExchangeOrder::Physical,
    );
    if let Ok(a) = append_ordered_phase(
        s,
        stage_transfers_from(w.roots, partials_per_stage(plan), stage, 0, Seq::empty()),
        WorkProvenance {
            operation: plan.source,
            value: Some(plan.output),
            reason: WorkReason::OperatorInputs,
        },
        ExchangeOrder::Physical,
    ) {
        lemma_no_copies_reside(a.shards);
        lemma_append_copies_from(a, if stage == 0 { w.seeds } else { Seq::empty() }, 0);
        if let Ok(b) = append_copies_from(a, if stage == 0 { w.seeds } else { Seq::empty() }, 0) {
            lemma_no_runs_reside(b.shards);
            lemma_stage_runs(b.shards, plan, requirements, w.roots, stage, 0, Seq::empty());
            lemma_append_kernels_from(
                b,
                stage_runs_from(plan, requirements, w.roots, stage, 0, Seq::empty()),
                0,
            );
        }
    }
}

pub proof fn lemma_append_stages_from(
    s: StateModel,
    plan: ReductionPlan,
    requirements: OperatorRequirementsModel,
    w: SumsModel,
    stage: int,
)
    requires
        sums_reside(s.shards, w),
    ensures
        match append_stages_from(s, plan, requirements, w, stage) {
            Ok(t) => follows(s, t),
            Err(_) => true,
        },
    decreases stage_count(plan) - stage,
{
    broadcast use group_products;

    if stage >= stage_count(plan) {
    } else {
        lemma_append_stage(s, plan, requirements, w, stage);
        if let Ok(next) = append_stage(s, plan, requirements, w, stage) {
            lemma_append_stages_from(next, plan, requirements, w, stage + 1);
        }
    }
}

pub proof fn lemma_append_partials(s: StateModel, plan: ReductionPlan, w: PartialModel)
    requires
        partials_reside(s.shards, w),
    ensures
        match append_partials(s, plan, w) {
            Ok(t) => follows(s, t),
            Err(_) => true,
        },
{
    broadcast use group_products;

    assert(runs_reside(s.shards, w.runs) && copies_reside(s.shards, w.copies)) by {
        reveal(partials_reside);
    }
    lemma_append_ordered_phase(
        s,
        w.transfers,
        WorkProvenance {
            operation: plan.source,
            value: Some(plan.right),
            reason: WorkReason::OperatorInput {
                input: match plan.orientation {
                    GemmOrientation::Normal => 1,
                    GemmOrientation::Swapped => 0,
                },
            },
        },
        ExchangeOrder::Semantic,
    );
    if let Ok(a) = append_ordered_phase(
        s,
        w.transfers,
        WorkProvenance {
            operation: plan.source,
            value: Some(plan.right),
            reason: WorkReason::OperatorInput {
                input: match plan.orientation {
                    GemmOrientation::Normal => 1,
                    GemmOrientation::Swapped => 0,
                },
            },
        },
        ExchangeOrder::Semantic,
    ) {
        lemma_append_copies_from(a, w.copies, 0);
        if let Ok(b) = append_copies_from(a, w.copies, 0) {
            lemma_append_kernels_from(b, w.runs, 0);
        }
    }
}

pub proof fn lemma_append_sums<M: Target>(
    target: &M,
    s: StateModel,
    plan: ReductionPlan,
    requirements: OperatorRequirementsModel,
    groups: Seq<GroupModel<(u16, ViewModel)>>,
    outputs: Seq<LowShardId>,
)
    requires
        groups_reside(s.shards, groups),
    ensures
        match append_sums(target, s, plan, requirements, groups, outputs) {
            Ok(t) => follows(s, t),
            Err(_) => true,
        },
{
    broadcast use group_products;

    assert(roots_reside(s.shards, Seq::empty())) by {
        reveal(roots_reside);
    }
    lemma_no_copies_reside(s.shards);
    lemma_add_groups_from(
        target,
        s,
        plan,
        groups,
        outputs,
        0,
        SumsModel { roots: Seq::empty(), seeds: Seq::empty(), results: Seq::empty() },
    );
    if let Ok((a, sums)) = add_groups_from(
        target,
        s,
        plan,
        groups,
        outputs,
        0,
        SumsModel { roots: Seq::empty(), seeds: Seq::empty(), results: Seq::empty() },
    ) {
        lemma_append_stages_from(a, plan, requirements, sums, 0);
        if let Ok(b) = append_stages_from(a, plan, requirements, sums, 0) {
            lemma_append_copies_from(b, sums.results, 0);
        }
    }
}

pub proof fn lemma_reduce_planned<M: Target>(
    target: &M,
    s: StateModel,
    plan: ReductionPlan,
    kernels: GemmKernels,
    requirements: OperatorRequirementsModel,
    division: Division,
    output: TypeModel,
    lefts: Seq<LowShardId>,
    rights: Seq<LowShardId>,
    outputs: Seq<LowShardId>,
)
    ensures
        match reduce_planned(
            target,
            s,
            plan,
            kernels,
            requirements,
            division,
            output,
            lefts,
            rights,
            outputs,
        ) {
            Ok(t) => follows(s, t),
            Err(_) => true,
        },
{
    broadcast use group_products;

    assert(partials_reside(s.shards, no_partials())) by {
        reveal(partials_reside);
        reveal(groups_reside);
        lemma_no_runs_reside(s.shards);
        lemma_no_copies_reside(s.shards);
    }
    if let Ok((tiling, columns)) = column_partitions(
        target,
        output,
        plan.axes,
        division.partitions.columns,
    ) {
        if let Ok(replicas) = replica_columns(s.shards, lefts, division.partitions.columns) {
            lemma_add_partitions_from(
                target,
                s,
                plan,
                kernels,
                lefts,
                replicas,
                rights,
                outputs,
                partial_type(
                    target,
                    output,
                    division.orientation,
                    division.column_block,
                    division.partitions,
                    plan.axes,
                    tiling,
                ),
                columns,
                0,
                no_partials(),
            );
            if let Ok((a, w)) = add_partitions_from(
                target,
                s,
                plan,
                kernels,
                lefts,
                replicas,
                rights,
                outputs,
                partial_type(
                    target,
                    output,
                    division.orientation,
                    division.column_block,
                    division.partitions,
                    plan.axes,
                    tiling,
                ),
                columns,
                0,
                no_partials(),
            ) {
                assert(groups_reside(a.shards, w.partials)) by {
                    reveal(partials_reside);
                }
                lemma_append_partials(a, plan, w);
                if let Ok(b) = append_partials(a, plan, w) {
                    lemma_append_sums(target, b, plan, requirements, w.partials, outputs);
                }
            }
        }
    }
}

pub proof fn lemma_reduce_product<M: Target>(
    target: &M,
    s: StateModel,
    operation: MidOperation,
    kernels: GemmKernels,
    division: Division,
    left: MidValueId,
    right: MidValueId,
    lefts: Seq<LowShardId>,
    rights: Seq<LowShardId>,
    outputs: Seq<LowShardId>,
)
    ensures
        match reduce_product(
            target,
            s,
            operation,
            kernels,
            division,
            left,
            right,
            lefts,
            rights,
            outputs,
        ) {
            Ok(t) => follows(s, t),
            Err(_) => true,
        },
{
    broadcast use group_products;

    let required = kernel_requirements(division.orientation, kernels.requirements);
    if let Ok(first_left) = shard_of(s.shards, lefts[0]) {
        if let Ok(first_right) = shard_of(s.shards, rights[0]) {
            if let Ok(first_output) = shard_of(s.shards, outputs[0]) {
                if first_left.extents.len() < 2
                    || first_right.extents.len() < 2
                    || first_output.extents.len() < 2 {
                } else {
                    let axes = product_axes(
                        division.orientation,
                        first_left.extents.len(),
                        first_right.extents.len(),
                        first_output.extents.len(),
                    );
                    let plan = ReductionPlan {
                        source: operation.source,
                        left,
                        right,
                        output: operation.results@[0],
                        orientation: division.orientation,
                        axes,
                        inner_block: division.inner_block,
                        column_block: division.column_block,
                        panel_block: panel_block(required.inputs[1].format.layout.order),
                        slices: required.inputs[
                            0
                        ].materialization == OperandMaterialization::DispatchSlices,
                        stage_local: required.inputs[
                            1
                        ].local_staging == LocalOperandStaging::MatchRemote,
                        inner_partitions: division.partitions.inner,
                        staging: division.staging,
                    };
                    lemma_reduce_planned(
                        target,
                        s,
                        plan,
                        GemmKernels { requirements: required, ..kernels },
                        kernels.requirements,
                        division,
                        first_output.tensor_type,
                        lefts,
                        rights,
                        outputs,
                    );
                }
            }
        }
    }
}

pub proof fn lemma_lower_parallel_reduction_gemm<M: Target>(
    target: &M,
    s: StateModel,
    operation: MidOperation,
    kernels: GemmKernels,
    division: Division,
)
    ensures
        match lower_parallel_reduction_gemm(target, s, operation, kernels, division) {
            Ok(t) => follows(s, t),
            Err(_) => true,
        },
{
    broadcast use group_products;

    if operation.inputs@.len() != 2 {
    } else if operation.results@.len() != 1 {
    } else if division.inner_block == 0 || division.column_block == 0 || !division.partitions.valid(
    ) || kernels.requirements.inputs.len() < 2 {
    } else {
        let (left, right) = match division.orientation {
            GemmOrientation::Normal => (operation.inputs@[0], operation.inputs@[1]),
            GemmOrientation::Swapped => (operation.inputs@[1], operation.inputs@[0]),
        };
        if let Ok(lefts) = value_shards(s, left) {
            if let Ok(rights) = value_shards(s, right) {
                if let Ok(outputs) = value_shards(s, operation.results@[0]) {
                    lemma_reduce_product(
                        target,
                        s,
                        operation,
                        kernels,
                        division,
                        left,
                        right,
                        lefts,
                        rights,
                        outputs,
                    );
                }
            }
        }
    }
}

pub proof fn lemma_lower_blocked_gemm<M: Target>(
    target: &M,
    s: StateModel,
    operation: MidOperation,
    kernels: GemmKernels,
    inner_block: u32,
    column_block: u32,
    orientation: GemmOrientation,
    distribution: GemmDistribution,
)
    ensures
        match lower_blocked_gemm(
            target,
            s,
            operation,
            kernels,
            inner_block,
            column_block,
            orientation,
            distribution,
        ) {
            Ok(t) => follows(s, t),
            Err(_) => true,
        },
{
    broadcast use group_products;

    match distribution {
        GemmDistribution::ParallelReduction {
                    row_partitions,
                    column_partitions,
                    inner_partitions,
                    result_row_partitions,
                    result_column_partitions,
                    reduction_staging,
                } => {
            lemma_lower_parallel_reduction_gemm(
                target,
                s,
                operation,
                kernels,
                Division {
                    inner_block,
                    column_block,
                    partitions: Partitions {
                        rows: row_partitions,
                        columns: column_partitions,
                        inner: inner_partitions,
                        result_rows: result_row_partitions,
                        result_columns: result_column_partitions,
                    },
                    staging: reduction_staging,
                    orientation,
                },
            );
        },
        GemmDistribution::OutputStationary => {
            if orientation != GemmOrientation::Normal {
            } else {
                lemma_lower_resident_gemm(
                    target,
                    s,
                    operation,
                    kernels,
                    inner_block,
                    column_block,
                    kernels.requirements.inputs.len() >= 2 && divides_inner(
                        kernels.requirements.inputs[1].format.layout.axes,
                    ),
                );
            }
        },
    }
}

} // verus!
