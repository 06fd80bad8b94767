//! What sums of partial results add up: every partial result, once.

use crate::carriage::{
    begins, holds_on, lemma_added_transfer, lemma_append_copies, lemma_append_kernels,
    lemma_append_phase, lemma_holds_on, lemma_listed_copies_are_made, lemma_still_copies,
    lemma_still_exchanges, lemma_still_schedules, lemma_still_stands, makes_copies, makes_exchange,
    makes_run, schedules, sends, sources_agree, stands_at, stands_in,
};
use crate::attention_coverage::still_sends;
use crate::copies::{on_tile, view_copies};
use crate::extents::padded_intersection;
use crate::low::{
    ExchangeOrder, KernelRunId, LocalCopy, LowShardId, RunModel, ShardModel, TileWork, ViewModel,
    WorkProvenance, WorkReason,
};
use crate::mid::OperatorRequirementsModel;
use crate::order::GroupModel;
use crate::phase::{add_transfer, append_ordered_phase};
use crate::product_coverage::lemma_begins_on;
use crate::reduction_plan::ReductionPlan;
use crate::reduction_sum::{
    add_groups_from, add_root, add_roots_from, append_stage, append_stages_from, append_sums,
    chunk_len, chunk_transfers_from, other_parts, part_of, partials_per_stage, root_run,
    root_transfers, row_view, seed_position, stage_count, stage_runs_from, stage_transfers_from,
    volume, RootModel, SumsModel,
};
use crate::state::{append_copies_from, shard_of, StateModel, TransfersModel};
use crate::target::Target;
use crate::tensor::ShardExtent;
use vstd::prelude::*;

verus! {

// ---------------------------------------------------------------- stages

/// Where a partial result arrives: one row for each that arrives at a time.
pub open spec fn arrival_row(root: RootModel, slot: int) -> ViewModel {
    row_view(root.remote, slot * root.elements, (slot + 1) * root.elements)
}

/// The accumulator that a sum begins with.
pub open spec fn first_row(root: RootModel) -> ViewModel {
    row_view(root.initial, 0, root.elements as int)
}

/// The transfers of a root in a stage are recorded.
pub open spec fn stage_recorded(
    transfers: TransfersModel,
    root: RootModel,
    per_stage: int,
    stage: int,
) -> bool {
    &&& stage == 0 ==> (root.seed matches Some(seed) ==> sends(transfers, seed, first_row(root)))
    &&& forall|slot: int|
        0 <= slot < chunk_len(root, per_stage, stage) ==> sends(
            transfers,
            root.rest[stage * per_stage + slot],
            #[trigger] arrival_row(root, slot),
        )
}

proof fn lemma_chunk_transfers(
    root: RootModel,
    first: int,
    count: int,
    slot: int,
    transfers: TransfersModel,
)
    requires
        0 <= slot,
        sources_agree(transfers),
    ensures
        ({
            let more = chunk_transfers_from(root, first, count, slot, transfers);
            &&& sources_agree(more)
            &&& still_sends(transfers, more)
            &&& forall|k: int|
                slot <= k < count ==> sends(
                    more,
                    root.rest[first + k],
                    #[trigger] arrival_row(root, k),
                )
        }),
    decreases count - slot,
{
    if slot < count {
        let source = root.rest[first + slot];
        let into = arrival_row(root, slot);
        let next = add_transfer(transfers, source, into);
        lemma_added_transfer(transfers, source, into);
        lemma_chunk_transfers(root, first, count, slot + 1, next);
        let more = chunk_transfers_from(root, first, count, slot, transfers);
        assert forall|a: ViewModel, b: ViewModel| sends(transfers, a, b) implies #[trigger] sends(
            more,
            a,
            b,
        ) by {
            assert(sends(next, a, b));
        }
        assert(sends(more, source, into));
    }
}

proof fn lemma_root_transfers(
    root: RootModel,
    per_stage: int,
    stage: int,
    transfers: TransfersModel,
)
    requires
        sources_agree(transfers),
    ensures
        ({
            let more = root_transfers(root, per_stage, stage, transfers);
            &&& sources_agree(more)
            &&& still_sends(transfers, more)
            &&& stage_recorded(more, root, per_stage, stage)
        }),
{
    let count = chunk_len(root, per_stage, stage);
    let more = root_transfers(root, per_stage, stage, transfers);
    match root.seed {
        Some(seed) if stage == 0 => {
            let next = add_transfer(transfers, seed, first_row(root));
            lemma_added_transfer(transfers, seed, first_row(root));
            lemma_chunk_transfers(root, stage * per_stage, count, 0, next);
            assert(sends(more, seed, first_row(root)));
            assert forall|a: ViewModel, b: ViewModel| sends(transfers, a, b) implies
                #[trigger] sends(more, a, b) by {
                assert(sends(next, a, b));
            }
        },
        _ => {
            lemma_chunk_transfers(root, stage * per_stage, count, 0, transfers);
        },
    }
}

proof fn lemma_still_recorded(
    before: TransfersModel,
    after: TransfersModel,
    root: RootModel,
    per_stage: int,
    stage: int,
)
    requires
        still_sends(before, after),
        stage_recorded(before, root, per_stage, stage),
    ensures
        stage_recorded(after, root, per_stage, stage),
{
    assert forall|slot: int|
        0 <= slot < chunk_len(root, per_stage, stage) implies sends(
        after,
        root.rest[stage * per_stage + slot],
        #[trigger] arrival_row(root, slot),
    ) by {
        assert(sends(
            before,
            root.rest[stage * per_stage + slot],
            arrival_row(root, slot),
        ));
    }
}

proof fn lemma_stage_transfers(
    roots: Seq<RootModel>,
    per_stage: int,
    stage: int,
    i: int,
    transfers: TransfersModel,
)
    requires
        0 <= i,
        sources_agree(transfers),
    ensures
        ({
            let more = stage_transfers_from(roots, per_stage, stage, i, transfers);
            &&& sources_agree(more)
            &&& still_sends(transfers, more)
            &&& forall|k: int|
                i <= k < roots.len() ==> stage_recorded(
                    more,
                    #[trigger] roots[k],
                    per_stage,
                    stage,
                )
        }),
    decreases roots.len() - i,
{
    if i < roots.len() {
        let next = root_transfers(roots[i], per_stage, stage, transfers);
        lemma_root_transfers(roots[i], per_stage, stage, transfers);
        lemma_stage_transfers(roots, per_stage, stage, i + 1, next);
        let more = stage_transfers_from(roots, per_stage, stage, i, transfers);
        assert forall|a: ViewModel, b: ViewModel| sends(transfers, a, b) implies #[trigger] sends(
            more,
            a,
            b,
        ) by {
            assert(sends(next, a, b));
        }
        lemma_still_recorded(next, more, roots[i], per_stage, stage);
    }
}

/// A run is among those from a position on.
pub open spec fn run_listed(runs: Seq<(u16, RunModel)>, tile: u16, run: RunModel) -> bool {
    exists|k: int| 0 <= k < runs.len() && #[trigger] runs[k] == (tile, run)
}

proof fn lemma_stage_runs(
    plan: ReductionPlan,
    requirements: OperatorRequirementsModel,
    roots: Seq<RootModel>,
    stage: int,
    i: int,
    done: Seq<(u16, RunModel)>,
)
    requires
        0 <= i,
        forall|k: int|
            0 <= k < done.len() ==> !((#[trigger] done[k]).1.metadata.kernel is Gemm),
    ensures
        ({
            let all = stage_runs_from(plan, requirements, roots, stage, i, done);
            &&& begins(all, done)
            &&& forall|k: int|
                0 <= k < all.len() ==> !((#[trigger] all[k]).1.metadata.kernel is Gemm)
            &&& forall|r: int|
                i <= r < roots.len() && chunk_len(
                    roots[r],
                    partials_per_stage(plan),
                    stage,
                ) != 0 ==> run_listed(
                    all,
                    (#[trigger] roots[r]).tile,
                    root_run(plan, requirements, roots[r], stage),
                )
        }),
    decreases roots.len() - i,
{
    if i < roots.len() {
        let run = (roots[i].tile, root_run(plan, requirements, roots[i], stage));
        let empty = chunk_len(roots[i], partials_per_stage(plan), stage) == 0;
        let next = if empty {
            done
        } else {
            done.push(run)
        };
        lemma_stage_runs(plan, requirements, roots, stage, i + 1, next);
        let all = stage_runs_from(plan, requirements, roots, stage, i, done);
        lemma_begins_on(done, next, all);
        if !empty {
            assert(all[done.len() as int] == next[done.len() as int]);
        }
    }
}

/// A schedule carries out a stage of a sum: what is left of the partial results
/// arrives, and is added.
pub open spec fn stage_done(
    s: StateModel,
    plan: ReductionPlan,
    requirements: OperatorRequirementsModel,
    root: RootModel,
    stage: int,
) -> bool {
    let per_stage = partials_per_stage(plan);
    &&& stage == 0 ==> (root.seed matches Some(seed) ==> makes_exchange(
        s,
        seed,
        first_row(root),
    ))
    &&& forall|slot: int|
        0 <= slot < chunk_len(root, per_stage, stage) ==> makes_exchange(
            s,
            root.rest[stage * per_stage + slot],
            #[trigger] arrival_row(root, slot),
        )
    &&& chunk_len(root, per_stage, stage) != 0 ==> makes_run(
        s,
        root_run(plan, requirements, root, stage),
        root.tile,
    )
}

pub(crate) proof fn lemma_run_still_made(s: StateModel, t: StateModel, run: RunModel, tile: u16)
    requires
        holds_on(s, t),
        makes_run(s, run, tile),
    ensures
        makes_run(t, run, tile),
{
    let k = choose|k: int|
        0 <= k < s.kernel_runs.len() && #[trigger] s.kernel_runs[k] == run && schedules(
            s,
            tile,
            TileWork::Kernel(KernelRunId(k as u32)),
        );
    assert(t.kernel_runs[k] == run);
    lemma_still_schedules(s, t, tile, TileWork::Kernel(KernelRunId(k as u32)));
}

proof fn lemma_stage_still_done(
    s: StateModel,
    t: StateModel,
    plan: ReductionPlan,
    requirements: OperatorRequirementsModel,
    root: RootModel,
    stage: int,
)
    requires
        holds_on(s, t),
        stage_done(s, plan, requirements, root, stage),
    ensures
        stage_done(t, plan, requirements, root, stage),
{
    let per_stage = partials_per_stage(plan);
    assert forall|a: ViewModel, b: ViewModel| makes_exchange(s, a, b) implies
        #[trigger] makes_exchange(t, a, b) by {
        lemma_still_exchanges(s, t, a, b);
    }
    if chunk_len(root, per_stage, stage) != 0 {
        lemma_run_still_made(s, t, root_run(plan, requirements, root, stage), root.tile);
    }
}

proof fn lemma_append_stage(
    s: StateModel,
    plan: ReductionPlan,
    requirements: OperatorRequirementsModel,
    w: SumsModel,
    stage: int,
)
    ensures
        match append_stage(s, plan, requirements, w, stage) {
            Err(_) => true,
            Ok(t) => {
                &&& holds_on(s, t)
                &&& forall|r: int|
                    0 <= r < w.roots.len() ==> stage_done(
                        t,
                        plan,
                        requirements,
                        #[trigger] w.roots[r],
                        stage,
                    )
                &&& stage == 0 ==> forall|copies: Seq<LocalCopy>, tile: u16|
                    #![trigger makes_copies(t, copies, tile)]
                    stands_in(w.seeds, on_tile(copies, tile)) ==> makes_copies(t, copies, tile)
            },
        },
{
    let per_stage = partials_per_stage(plan);
    let transfers = stage_transfers_from(w.roots, per_stage, stage, 0, Seq::empty());
    let runs = stage_runs_from(plan, requirements, w.roots, stage, 0, Seq::empty());
    lemma_stage_transfers(w.roots, per_stage, stage, 0, Seq::empty());
    lemma_stage_runs(plan, requirements, w.roots, stage, 0, Seq::empty());
    if let Ok(t) = append_stage(s, plan, requirements, w, stage) {
        let provenance = WorkProvenance {
            operation: plan.source,
            value: Some(plan.output),
            reason: WorkReason::OperatorInputs,
        };
        let list = if stage == 0 {
            w.seeds
        } else {
            Seq::empty()
        };
        let a = append_ordered_phase(s, transfers, provenance, ExchangeOrder::Physical)->Ok_0;
        let b = append_copies_from(a, list, 0)->Ok_0;
        lemma_append_phase(s, transfers, provenance, ExchangeOrder::Physical);
        lemma_append_copies(a, list, 0);
        lemma_append_kernels(b, runs, 0);
        lemma_holds_on(s, a, b);
        lemma_holds_on(s, b, t);
        lemma_holds_on(a, b, t);
        assert forall|r: int| 0 <= r < w.roots.len() implies stage_done(
            t,
            plan,
            requirements,
            #[trigger] w.roots[r],
            stage,
        ) by {
            let root = w.roots[r];
            assert(stage_recorded(transfers, root, per_stage, stage));
            assert forall|x: ViewModel, y: ViewModel| sends(transfers, x, y) implies
                #[trigger] makes_exchange(t, x, y) by {
                assert(makes_exchange(a, x, y));
                lemma_still_exchanges(a, t, x, y);
            }
            assert forall|slot: int|
                0 <= slot < chunk_len(root, per_stage, stage) implies makes_exchange(
                t,
                root.rest[stage * per_stage + slot],
                #[trigger] arrival_row(root, slot),
            ) by {
                assert(sends(
                    transfers,
                    root.rest[stage * per_stage + slot],
                    arrival_row(root, slot),
                ));
            }
            if chunk_len(root, per_stage, stage) != 0 {
                let run = root_run(plan, requirements, root, stage);
                assert(run_listed(runs, root.tile, run));
                let k = choose|k: int|
                    0 <= k < runs.len() && #[trigger] runs[k] == (root.tile, run);
                assert(makes_run(t, runs[k].1, runs[k].0));
            }
        }
        if stage == 0 {
            assert forall|copies: Seq<LocalCopy>, tile: u16|
                #![trigger makes_copies(t, copies, tile)]
                stands_in(w.seeds, on_tile(copies, tile)) implies makes_copies(
                t,
                copies,
                tile,
            ) by {
                lemma_listed_copies_are_made(a, w.seeds, copies, tile);
                lemma_still_copies(b, t, copies, tile);
            }
        }
    }
}

proof fn lemma_append_stages(
    s: StateModel,
    plan: ReductionPlan,
    requirements: OperatorRequirementsModel,
    w: SumsModel,
    stage: int,
)
    requires
        0 <= stage,
    ensures
        match append_stages_from(s, plan, requirements, w, stage) {
            Err(_) => true,
            Ok(t) => {
                &&& holds_on(s, t)
                &&& forall|r: int, k: int|
                    0 <= r < w.roots.len() && stage <= k < stage_count(plan) ==>
                        #[trigger] stage_done(t, plan, requirements, w.roots[r], k)
                &&& stage == 0 && 0 < stage_count(plan) ==> forall|
                    copies: Seq<LocalCopy>,
                    tile: u16,
                |
                    #![trigger makes_copies(t, copies, tile)]
                    stands_in(w.seeds, on_tile(copies, tile)) ==> makes_copies(t, copies, tile)
            },
        },
    decreases stage_count(plan) - stage,
{
    if stage < stage_count(plan) {
        lemma_append_stage(s, plan, requirements, w, stage);
        if let Ok(next) = append_stage(s, plan, requirements, w, stage) {
            lemma_append_stages(next, plan, requirements, w, stage + 1);
            if let Ok(t) = append_stages_from(s, plan, requirements, w, stage) {
                lemma_holds_on(s, next, t);
                assert forall|r: int, k: int|
                    0 <= r < w.roots.len() && stage <= k < stage_count(plan) implies
                    #[trigger] stage_done(t, plan, requirements, w.roots[r], k) by {
                    if k == stage {
                        lemma_stage_still_done(
                            next,
                            t,
                            plan,
                            requirements,
                            w.roots[r],
                            stage,
                        );
                    }
                }
                if stage == 0 {
                    assert forall|copies: Seq<LocalCopy>, tile: u16|
                        #![trigger makes_copies(t, copies, tile)]
                        stands_in(w.seeds, on_tile(copies, tile)) implies makes_copies(
                        t,
                        copies,
                        tile,
                    ) by {
                        assert(makes_copies(next, copies, tile));
                        lemma_still_copies(next, t, copies, tile);
                    }
                }
            }
        }
    } else {
        assert(holds_on(s, s));
    }
}

// ---------------------------------------------------------------- roots

/// The accumulator that the last stage wrote.
pub open spec fn last_row(plan: ReductionPlan, root: RootModel) -> ViewModel {
    row_view(
        if stage_count(plan) % 2 == 0 {
            root.initial
        } else {
            root.result
        },
        0,
        root.elements as int,
    )
}

/// The copies of one view to another stand in a list.
pub open spec fn copy_listed<M: Target>(
    target: &M,
    shards: Seq<ShardModel>,
    list: Seq<(u16, LocalCopy)>,
    source: ViewModel,
    destination: ViewModel,
    tile: u16,
) -> bool {
    &&& source.shard.0 < shards.len()
    &&& destination.shard.0 < shards.len()
    &&& match view_copies(target, shards, source, destination, ExchangeOrder::Physical) {
        Ok(copies) => stands_in(list, on_tile(copies, tile)),
        Err(_) => false,
    }
}

/// A root sums one part of the partial results: it begins with one of them,
/// and the others are left to add.
pub open spec fn sums_part(
    root: RootModel,
    plan: ReductionPlan,
    partials: Seq<(u16, ViewModel)>,
    tile: u16,
    part: Seq<ShardExtent>,
) -> bool {
    let seed = seed_position(partials, tile, 0);
    &&& root.tile == tile
    &&& root.rest == other_parts(partials, seed, part)
    &&& root.seed == (if partials[seed].0 == tile {
        None
    } else {
        Some(part_of(partials[seed].1, part))
    })
    &&& root.rest.len() <= stage_count(plan) * partials_per_stage(plan)
}

/// The sums hold a root for one part of an output, with the copies that it
/// begins and ends with.
pub open spec fn root_listed<M: Target>(
    target: &M,
    shards: Seq<ShardModel>,
    plan: ReductionPlan,
    w: SumsModel,
    partials: Seq<(u16, ViewModel)>,
    output: LowShardId,
    tile: u16,
    part: Seq<ShardExtent>,
    r: int,
) -> bool {
    let root = w.roots[r];
    let seed = seed_position(partials, tile, 0);
    &&& 0 <= r < w.roots.len()
    &&& sums_part(root, plan, partials, tile, part)
    &&& root.seed is None ==> copy_listed(
        target,
        shards,
        w.seeds,
        part_of(partials[seed].1, part),
        first_row(root),
        tile,
    )
    &&& copy_listed(
        target,
        shards,
        w.results,
        last_row(plan, root),
        ViewModel { shard: output, extents: part },
        tile,
    )
}

/// The sums hold a root for one part of an output.
pub open spec fn part_listed<M: Target>(
    target: &M,
    shards: Seq<ShardModel>,
    plan: ReductionPlan,
    w: SumsModel,
    partials: Seq<(u16, ViewModel)>,
    output: LowShardId,
    tile: u16,
    part: Seq<ShardExtent>,
) -> bool {
    exists|r: int| #[trigger]
        root_listed(target, shards, plan, w, partials, output, tile, part, r)
}

/// Sums still hold what they held before.
pub open spec fn sums_grow(a: SumsModel, b: SumsModel) -> bool {
    begins(b.roots, a.roots) && begins(b.seeds, a.seeds) && begins(b.results, a.results)
}

proof fn lemma_still_copied<M: Target>(
    target: &M,
    shards: Seq<ShardModel>,
    more: Seq<ShardModel>,
    before: Seq<(u16, LocalCopy)>,
    after: Seq<(u16, LocalCopy)>,
    source: ViewModel,
    destination: ViewModel,
    tile: u16,
)
    requires
        begins(more, shards),
        begins(after, before),
        copy_listed(target, shards, before, source, destination, tile),
    ensures
        copy_listed(target, more, after, source, destination, tile),
{
    assert(more[source.shard.0 as int] == shards[source.shard.0 as int]);
    assert(more[destination.shard.0 as int] == shards[destination.shard.0 as int]);
    let copies = view_copies(target, shards, source, destination, ExchangeOrder::Physical)->Ok_0;
    lemma_still_stands(before, after, on_tile(copies, tile));
}

proof fn lemma_part_still_listed<M: Target>(
    target: &M,
    shards: Seq<ShardModel>,
    more: Seq<ShardModel>,
    plan: ReductionPlan,
    before: SumsModel,
    after: SumsModel,
    partials: Seq<(u16, ViewModel)>,
    output: LowShardId,
    tile: u16,
    part: Seq<ShardExtent>,
)
    requires
        begins(more, shards),
        sums_grow(before, after),
        part_listed(target, shards, plan, before, partials, output, tile, part),
    ensures
        part_listed(target, more, plan, after, partials, output, tile, part),
{
    let r = choose|r: int| #[trigger]
        root_listed(target, shards, plan, before, partials, output, tile, part, r);
    let root = before.roots[r];
    let seed = seed_position(partials, tile, 0);
    assert(after.roots[r] == root);
    if root.seed is None {
        lemma_still_copied(
            target,
            shards,
            more,
            before.seeds,
            after.seeds,
            part_of(partials[seed].1, part),
            first_row(root),
            tile,
        );
    }
    lemma_still_copied(
        target,
        shards,
        more,
        before.results,
        after.results,
        last_row(plan, root),
        ViewModel { shard: output, extents: part },
        tile,
    );
    assert(root_listed(target, more, plan, after, partials, output, tile, part, r));
}

proof fn lemma_add_root<M: Target>(
    target: &M,
    s: StateModel,
    plan: ReductionPlan,
    partials: Seq<(u16, ViewModel)>,
    output: LowShardId,
    tile: u16,
    part: Seq<ShardExtent>,
    elements: u32,
    w: SumsModel,
)
    requires
        partials.len() > 0,
    ensures
        match add_root(target, s, plan, partials, output, tile, part, elements, w) {
            Err(_) => true,
            Ok((t, more)) => {
                &&& begins(t.shards, s.shards)
                &&& sums_grow(w, more)
                &&& part_listed(target, t.shards, plan, more, partials, output, tile, part)
            },
        },
{
    if let Ok((t, more)) = add_root(
        target,
        s,
        plan,
        partials,
        output,
        tile,
        part,
        elements,
        w,
    ) {
        let r = w.roots.len() as int;
        let root = more.roots[r];
        let seed = seed_position(partials, tile, 0);
        let source = part_of(partials[seed].1, part);
        if partials[seed].0 == tile {
            let copies = view_copies(
                target,
                t.shards,
                source,
                first_row(root),
                ExchangeOrder::Physical,
            )->Ok_0;
            assert(stands_at(more.seeds, on_tile(copies, tile), w.seeds.len() as int));
        }
        let copies = view_copies(
            target,
            t.shards,
            last_row(plan, root),
            ViewModel { shard: output, extents: part },
            ExchangeOrder::Physical,
        )->Ok_0;
        assert(stands_at(more.results, on_tile(copies, tile), w.results.len() as int));
        assert(root_listed(target, t.shards, plan, more, partials, output, tile, part, r));
    }
}

proof fn lemma_add_roots<M: Target>(
    target: &M,
    s: StateModel,
    plan: ReductionPlan,
    partials: Seq<(u16, ViewModel)>,
    outputs: Seq<LowShardId>,
    expected: int,
    k: int,
    covered: int,
    w: SumsModel,
)
    requires
        0 <= k,
        partials.len() > 0,
    ensures
        match add_roots_from(target, s, plan, partials, outputs, expected, k, covered, w) {
            Err(_) => true,
            Ok((t, more)) => {
                &&& begins(t.shards, s.shards)
                &&& sums_grow(w, more)
                &&& forall|o: int|
                    k <= o < outputs.len() && (#[trigger] outputs[o]).0 < s.shards.len() ==> (
                    match padded_intersection(
                        s.shards[outputs[o].0 as int].extents,
                        partials[0].1.extents,
                    ) {
                        None => true,
                        Some(part) => part_listed(
                            target,
                            t.shards,
                            plan,
                            more,
                            partials,
                            outputs[o],
                            s.shards[outputs[o].0 as int].tile,
                            part,
                        ),
                    })
            },
        },
    decreases outputs.len() - k,
{
    if k < outputs.len() {
        if let Ok(owner) = shard_of(s.shards, outputs[k]) {
            match padded_intersection(owner.extents, partials[0].1.extents) {
                None => {
                    lemma_add_roots(
                        target,
                        s,
                        plan,
                        partials,
                        outputs,
                        expected,
                        k + 1,
                        covered,
                        w,
                    );
                },
                Some(part) => {
                    if let Ok(elements) = volume(part, u32::MAX as int) {
                        lemma_add_root(
                            target,
                            s,
                            plan,
                            partials,
                            outputs[k],
                            owner.tile,
                            part,
                            elements as u32,
                            w,
                        );
                        if let Ok((next, some)) = add_root(
                            target,
                            s,
                            plan,
                            partials,
                            outputs[k],
                            owner.tile,
                            part,
                            elements as u32,
                            w,
                        ) {
                            lemma_add_roots(
                                target,
                                next,
                                plan,
                                partials,
                                outputs,
                                expected,
                                k + 1,
                                covered + elements,
                                some,
                            );
                            if let Ok((t, more)) = add_roots_from(
                                target,
                                s,
                                plan,
                                partials,
                                outputs,
                                expected,
                                k,
                                covered,
                                w,
                            ) {
                                lemma_begins_on(s.shards, next.shards, t.shards);
                                lemma_begins_on(w.roots, some.roots, more.roots);
                                lemma_begins_on(w.seeds, some.seeds, more.seeds);
                                lemma_begins_on(w.results, some.results, more.results);
                                lemma_part_still_listed(
                                    target,
                                    next.shards,
                                    t.shards,
                                    plan,
                                    some,
                                    more,
                                    partials,
                                    outputs[k],
                                    owner.tile,
                                    part,
                                );
                                assert forall|o: int|
                                    k <= o < outputs.len() && (#[trigger] outputs[o]).0
                                        < s.shards.len() implies (match padded_intersection(
                                    s.shards[outputs[o].0 as int].extents,
                                    partials[0].1.extents,
                                ) {
                                    None => true,
                                    Some(part) => part_listed(
                                        target,
                                        t.shards,
                                        plan,
                                        more,
                                        partials,
                                        outputs[o],
                                        s.shards[outputs[o].0 as int].tile,
                                        part,
                                    ),
                                }) by {
                                    assert(next.shards[outputs[o].0 as int]
                                        == s.shards[outputs[o].0 as int]);
                                }
                            }
                        }
                    }
                },
            }
        }
    }
}

proof fn lemma_add_groups<M: Target>(
    target: &M,
    s: StateModel,
    plan: ReductionPlan,
    groups: Seq<GroupModel<(u16, ViewModel)>>,
    outputs: Seq<LowShardId>,
    g: int,
    w: SumsModel,
)
    requires
        0 <= g,
        forall|i: int| 0 <= i < groups.len() ==> (#[trigger] groups[i]).items.len() > 0,
    ensures
        match add_groups_from(target, s, plan, groups, outputs, g, w) {
            Err(_) => true,
            Ok((t, more)) => {
                &&& begins(t.shards, s.shards)
                &&& sums_grow(w, more)
                &&& forall|i: int, o: int|
                    #![trigger groups[i], outputs[o]]
                    g <= i < groups.len() && 0 <= o < outputs.len() && outputs[o].0
                        < s.shards.len() ==> (match padded_intersection(
                        s.shards[outputs[o].0 as int].extents,
                        groups[i].items[0].1.extents,
                    ) {
                        None => true,
                        Some(part) => part_listed(
                            target,
                            t.shards,
                            plan,
                            more,
                            groups[i].items,
                            outputs[o],
                            s.shards[outputs[o].0 as int].tile,
                            part,
                        ),
                    })
            },
        },
    decreases groups.len() - g,
{
    if g < groups.len() {
        let items = groups[g].items;
        if let Ok(expected) = volume(items[0].1.extents, u64::MAX as int) {
            lemma_add_roots(target, s, plan, items, outputs, expected, 0, 0, w);
            if let Ok((next, some)) = add_roots_from(
                target,
                s,
                plan,
                items,
                outputs,
                expected,
                0,
                0,
                w,
            ) {
                lemma_add_groups(target, next, plan, groups, outputs, g + 1, some);
                if let Ok((t, more)) = add_groups_from(
                    target,
                    s,
                    plan,
                    groups,
                    outputs,
                    g,
                    w,
                ) {
                    lemma_begins_on(s.shards, next.shards, t.shards);
                    lemma_begins_on(w.roots, some.roots, more.roots);
                    lemma_begins_on(w.seeds, some.seeds, more.seeds);
                    lemma_begins_on(w.results, some.results, more.results);
                    assert forall|i: int, o: int|
                        #![trigger groups[i], outputs[o]]
                        g <= i < groups.len() && 0 <= o < outputs.len() && outputs[o].0
                            < s.shards.len() implies (match padded_intersection(
                        s.shards[outputs[o].0 as int].extents,
                        groups[i].items[0].1.extents,
                    ) {
                        None => true,
                        Some(part) => part_listed(
                            target,
                            t.shards,
                            plan,
                            more,
                            groups[i].items,
                            outputs[o],
                            s.shards[outputs[o].0 as int].tile,
                            part,
                        ),
                    }) by {
                        assert(next.shards[outputs[o].0 as int]
                            == s.shards[outputs[o].0 as int]);
                        if i == g {
                            if let Some(part) = padded_intersection(
                                s.shards[outputs[o].0 as int].extents,
                                items[0].1.extents,
                            ) {
                                lemma_part_still_listed(
                                    target,
                                    next.shards,
                                    t.shards,
                                    plan,
                                    some,
                                    more,
                                    items,
                                    outputs[o],
                                    s.shards[outputs[o].0 as int].tile,
                                    part,
                                );
                            }
                        }
                    }
                }
            }
        }
    }
}

// ---------------------------------------------------------------- sums

/// Copies carry one view to another inside a tile.
pub open spec fn copied_over<M: Target>(
    target: &M,
    s: StateModel,
    source: ViewModel,
    destination: ViewModel,
    tile: u16,
) -> bool {
    match view_copies(target, s.shards, source, destination, ExchangeOrder::Physical) {
        Ok(copies) => makes_copies(s, copies, tile),
        Err(_) => false,
    }
}

/// A schedule sums one part of the partial results into an output: it begins
/// with one of them, adds all others stage by stage, and copies the last
/// accumulator to the output.
pub open spec fn sums_into<M: Target>(
    target: &M,
    s: StateModel,
    plan: ReductionPlan,
    requirements: OperatorRequirementsModel,
    partials: Seq<(u16, ViewModel)>,
    output: LowShardId,
    tile: u16,
    part: Seq<ShardExtent>,
    root: RootModel,
) -> bool {
    let seed = seed_position(partials, tile, 0);
    &&& sums_part(root, plan, partials, tile, part)
    &&& root.seed is None && 0 < stage_count(plan) ==> copied_over(
        target,
        s,
        part_of(partials[seed].1, part),
        first_row(root),
        tile,
    )
    &&& forall|stage: int|
        0 <= stage < stage_count(plan) ==> #[trigger] stage_done(
            s,
            plan,
            requirements,
            root,
            stage,
        )
    &&& copied_over(
        target,
        s,
        last_row(plan, root),
        ViewModel { shard: output, extents: part },
        tile,
    )
}

/// Partial results are summed: what every output shares with a group of partial
/// results is the sum over the group.
pub proof fn lemma_partial_results_are_summed<M: Target>(
    target: &M,
    s: StateModel,
    plan: ReductionPlan,
    requirements: OperatorRequirementsModel,
    groups: Seq<GroupModel<(u16, ViewModel)>>,
    outputs: Seq<LowShardId>,
    g: int,
    o: int,
)
    requires
        forall|i: int| 0 <= i < groups.len() ==> (#[trigger] groups[i]).items.len() > 0,
        0 <= g < groups.len(),
        0 <= o < outputs.len(),
        outputs[o].0 < s.shards.len(),
    ensures
        match append_sums(target, s, plan, requirements, groups, outputs) {
            Err(_) => true,
            Ok(t) => match padded_intersection(
                s.shards[outputs[o].0 as int].extents,
                groups[g].items[0].1.extents,
            ) {
                None => true,
                Some(part) => exists|root: RootModel| #[trigger]
                    sums_into(
                        target,
                        t,
                        plan,
                        requirements,
                        groups[g].items,
                        outputs[o],
                        s.shards[outputs[o].0 as int].tile,
                        part,
                        root,
                    ),
            },
        },
{
    let start = SumsModel { roots: Seq::empty(), seeds: Seq::empty(), results: Seq::empty() };
    lemma_add_groups(target, s, plan, groups, outputs, 0, start);
    if let Ok(t) = append_sums(target, s, plan, requirements, groups, outputs) {
        let (a, sums) = add_groups_from(target, s, plan, groups, outputs, 0, start)->Ok_0;
        let b = append_stages_from(a, plan, requirements, sums, 0)->Ok_0;
        lemma_append_stages(a, plan, requirements, sums, 0);
        lemma_append_copies(b, sums.results, 0);
        if let Some(part) = padded_intersection(
            s.shards[outputs[o].0 as int].extents,
            groups[g].items[0].1.extents,
        ) {
            let partials = groups[g].items;
            let tile = s.shards[outputs[o].0 as int].tile;
            assert(part_listed(
                target,
                a.shards,
                plan,
                sums,
                partials,
                outputs[o],
                tile,
                part,
            ));
            let r = choose|r: int| #[trigger]
                root_listed(
                    target,
                    a.shards,
                    plan,
                    sums,
                    partials,
                    outputs[o],
                    tile,
                    part,
                    r,
                );
            let root = sums.roots[r];
            let seed = seed_position(partials, tile, 0);
            if root.seed is None && 0 < stage_count(plan) {
                let copies = view_copies(
                    target,
                    a.shards,
                    part_of(partials[seed].1, part),
                    first_row(root),
                    ExchangeOrder::Physical,
                )->Ok_0;
                assert(makes_copies(b, copies, tile));
                lemma_still_copies(b, t, copies, tile);
            }
            assert forall|stage: int| 0 <= stage < stage_count(plan) implies
                #[trigger] stage_done(t, plan, requirements, root, stage) by {
                assert(stage_done(b, plan, requirements, sums.roots[r], stage));
                lemma_stage_still_done(b, t, plan, requirements, root, stage);
            }
            let copies = view_copies(
                target,
                a.shards,
                last_row(plan, root),
                ViewModel { shard: outputs[o], extents: part },
                ExchangeOrder::Physical,
            )->Ok_0;
            lemma_listed_copies_are_made(b, sums.results, copies, tile);
            assert(sums_into(
                target,
                t,
                plan,
                requirements,
                partials,
                outputs[o],
                tile,
                part,
                root,
            ));
        }
    }
}

proof fn lemma_seed_position(partials: Seq<(u16, ViewModel)>, tile: u16, i: int)
    requires
        0 <= i,
        partials.len() > 0,
    ensures
        0 <= seed_position(partials, tile, i) < partials.len(),
    decreases partials.len() - i,
{
    if i < partials.len() && partials[i].0 != tile {
        lemma_seed_position(partials, tile, i + 1);
    }
}

/// A sum adds a partial result in a stage, from the row where it arrives.
pub open spec fn adds(
    root: RootModel,
    plan: ReductionPlan,
    stage: int,
    slot: int,
    partial: ViewModel,
) -> bool {
    let per_stage = partials_per_stage(plan);
    &&& 0 <= stage < stage_count(plan)
    &&& 0 <= slot < chunk_len(root, per_stage, stage)
    &&& root.rest[stage * per_stage + slot] == partial
}

/// A sum leaves out no partial result: it begins with one, and all others are
/// left to add, each in a stage of its own or together with others.
pub proof fn lemma_no_partial_result_is_left_out(
    root: RootModel,
    plan: ReductionPlan,
    partials: Seq<(u16, ViewModel)>,
    tile: u16,
    part: Seq<ShardExtent>,
    j: int,
)
    requires
        0 <= j < partials.len(),
        sums_part(root, plan, partials, tile, part),
        partials_per_stage(plan) > 0,
    ensures
        j == seed_position(partials, tile, 0) || exists|stage: int, slot: int| #[trigger]
            adds(root, plan, stage, slot, part_of(partials[j].1, part)),
{
    let seed = seed_position(partials, tile, 0);
    lemma_seed_position(partials, tile, 0);
    if j != seed {
        let per = partials_per_stage(plan);
        let q = if j < seed {
            j
        } else {
            j - 1
        };
        assert(root.rest[q] == part_of(partials[j].1, part));
        let stage = q / per;
        let slot = q % per;
        vstd::arithmetic::div_mod::lemma_fundamental_div_mod(q, per);
        assert(0 <= stage && 0 <= slot < per && q == stage * per + slot) by (nonlinear_arith)
            requires
                per > 0,
                q >= 0,
                stage == q / per,
                slot == q % per,
        ;
        assert(stage < stage_count(plan)) by (nonlinear_arith)
            requires
                q == stage * per + slot,
                0 <= slot,
                q < stage_count(plan) * per,
                per > 0,
        ;
        assert((stage + 1) * per == stage * per + per) by (nonlinear_arith);
        assert(adds(root, plan, stage, slot, part_of(partials[j].1, part)));
    }
}

} // verus!
