//! What partial results hold: for every left shard, the whole of its inner axis.

use crate::attention_coverage::still_sends;
use crate::carriage::{
    begins, holds_on, lemma_added_transfer, lemma_append_copies, lemma_append_phase,
    lemma_holds_on, lemma_listed_copies_are_made, lemma_still_copies, lemma_still_exchanges,
    lemma_still_stands, makes_copies, makes_exchange, sends, sources_agree, stands_at, stands_in,
};
use crate::copies::{on_tile, view_copies};
use crate::gemm::{onto, GemmKernels};
use crate::lookup::{converted_from, intersecting, local_shard, resides, value_shards};
use crate::low::{
    ExchangeOrder, LocalCopy, LowShardId, RunModel, ShardModel, ViewModel, WorkProvenance,
    WorkReason,
};
use crate::mid::GemmOrientation;
use crate::order::{groups_insert, lemma_slot_bounds, slot_from, GroupModel};
use crate::phase::append_ordered_phase;
use crate::pointwise::operator_run;
use crate::product_coverage::{
    lemma_append_runs, lemma_begins_on, lemma_place_from, makes, only_adds_shards,
};
use crate::reduction_partials::{
    add_block_runs, add_blocks_from, add_left, add_lefts_from, add_panel_runs_from,
    add_partial_run, add_partitions_from, any_direct, bring_panel, bring_panels_from, contribute,
    footprint_key, no_partials, partial_extents, partial_storage, record_partial, resident_left,
    resident_left_from, sized_kernel, staged_block, weight_block, weight_source, weights_storage,
    whole_ranges, PanelSource, PartialModel,
};
use crate::reduction_plan::{Columns, ReductionPlan};
use crate::reduction_sum::append_partials;
use crate::state::{append_copies_from, narrow_view, StateModel};
use crate::target::Target;
use crate::tensor::{ShardExtent, TypeModel};
use vstd::prelude::*;

verus! {

// ---------------------------------------------------------------- work

/// An item is filed in some group.
pub open spec fn is_recorded<V>(groups: Seq<GroupModel<V>>, item: V) -> bool {
    exists|g: int, i: int|
        0 <= g < groups.len() && 0 <= i < groups[g].items.len()
            && #[trigger] groups[g].items[i] == item
}

/// The work of partial results still does what it did before.
pub open spec fn partials_grow(a: PartialModel, b: PartialModel) -> bool {
    &&& still_sends(a.transfers, b.transfers)
    &&& begins(b.copies, a.copies)
    &&& begins(b.runs, a.runs)
    &&& forall|item: (u16, ViewModel)|
        is_recorded(a.partials, item) ==> #[trigger] is_recorded(b.partials, item)
}

proof fn lemma_partials_grow_on(a: PartialModel, b: PartialModel, c: PartialModel)
    requires
        partials_grow(a, b),
        partials_grow(b, c),
    ensures
        partials_grow(a, c),
{
    lemma_begins_on(a.copies, b.copies, c.copies);
    lemma_begins_on(a.runs, b.runs, c.runs);
    assert forall|x: ViewModel, y: ViewModel| sends(a.transfers, x, y) implies #[trigger] sends(
        c.transfers,
        x,
        y,
    ) by {
        assert(sends(b.transfers, x, y));
    }
    assert forall|item: (u16, ViewModel)| is_recorded(a.partials, item) implies
        #[trigger] is_recorded(c.partials, item) by {
        assert(is_recorded(b.partials, item));
    }
}

proof fn lemma_record<V>(groups: Seq<GroupModel<V>>, key: Seq<u32>, item: V)
    ensures
        is_recorded(groups_insert(groups, key, item), item),
        forall|other: V|
            is_recorded(groups, other) ==> #[trigger] is_recorded(
                groups_insert(groups, key, item),
                other,
            ),
{
    let after = groups_insert(groups, key, item);
    let slot = slot_from(groups, key, 0);
    lemma_slot_bounds(groups, key);
    let joined = slot < groups.len() && groups[slot].key == key;
    if joined {
        assert(after[slot].items[groups[slot].items.len() as int] == item);
    } else {
        assert(after[slot].items[0] == item);
    }
    assert forall|other: V| is_recorded(groups, other) implies #[trigger] is_recorded(
        after,
        other,
    ) by {
        let (g, i) = choose|g: int, i: int|
            0 <= g < groups.len() && 0 <= i < groups[g].items.len()
                && #[trigger] groups[g].items[i] == other;
        let moved = if joined || g < slot {
            g
        } else {
            g + 1
        };
        assert(after[moved].items[i] == other);
    }
}

/// The panel of weights with the given position.
pub open spec fn panel_range(plan: ReductionPlan, start: int, q: int) -> (u32, u32) {
    ((start + q * plan.panel_block) as u32, (start + (q + 1) * plan.panel_block) as u32)
}

/// A panel of weights is in place, or the work copies or sends it to staging.
pub open spec fn panel_ready<M: Target>(
    target: &M,
    shards: Seq<ShardModel>,
    plan: ReductionPlan,
    rights: Seq<LowShardId>,
    weights: Option<LowShardId>,
    tile: u16,
    inner: (u32, u32),
    columns: (u32, u32),
    w: PartialModel,
    source: PanelSource,
) -> bool {
    match weight_source(shards, rights, plan.axes, inner, columns) {
        Err(_) => false,
        Ok(right) => {
            &&& weight_block(shards, right, plan.axes, inner, columns) == Ok::<
                ViewModel,
                crate::low::LowLoweringError,
            >(source.0)
            &&& if source.1 {
                resides(shards, right, tile)
            } else {
                match staged_block(shards, weights, plan.axes, inner, columns) {
                    Err(_) => false,
                    Ok(into) => if resides(shards, right, tile) {
                        match view_copies(
                            target,
                            shards,
                            source.0,
                            into,
                            ExchangeOrder::Semantic,
                        ) {
                            Ok(copies) => stands_in(w.copies, on_tile(copies, tile)),
                            Err(_) => false,
                        }
                    } else {
                        sends(w.transfers, source.0, into)
                    },
                }
            }
        },
    }
}

proof fn lemma_panel_still_ready<M: Target>(
    target: &M,
    shards: Seq<ShardModel>,
    plan: ReductionPlan,
    rights: Seq<LowShardId>,
    weights: Option<LowShardId>,
    tile: u16,
    inner: (u32, u32),
    columns: (u32, u32),
    a: PartialModel,
    b: PartialModel,
    source: PanelSource,
)
    requires
        partials_grow(a, b),
        panel_ready(target, shards, plan, rights, weights, tile, inner, columns, a, source),
    ensures
        panel_ready(target, shards, plan, rights, weights, tile, inner, columns, b, source),
{
    let right = weight_source(shards, rights, plan.axes, inner, columns)->Ok_0;
    if !source.1 && resides(shards, right, tile) {
        let into = staged_block(shards, weights, plan.axes, inner, columns)->Ok_0;
        let copies = view_copies(
            target,
            shards,
            source.0,
            into,
            ExchangeOrder::Semantic,
        )->Ok_0;
        lemma_still_stands(a.copies, b.copies, on_tile(copies, tile));
    }
}

proof fn lemma_bring_panel<M: Target>(
    target: &M,
    shards: Seq<ShardModel>,
    plan: ReductionPlan,
    rights: Seq<LowShardId>,
    weights: Option<LowShardId>,
    tile: u16,
    inner: (u32, u32),
    columns: (u32, u32),
    w: PartialModel,
)
    requires
        sources_agree(w.transfers),
    ensures
        match bring_panel(target, shards, plan, rights, weights, tile, inner, columns, w) {
            Err(_) => true,
            Ok((more, source)) => {
                &&& partials_grow(w, more)
                &&& sources_agree(more.transfers)
                &&& panel_ready(
                    target,
                    shards,
                    plan,
                    rights,
                    weights,
                    tile,
                    inner,
                    columns,
                    more,
                    source,
                )
            },
        },
{
    if let Ok((more, source)) = bring_panel(
        target,
        shards,
        plan,
        rights,
        weights,
        tile,
        inner,
        columns,
        w,
    ) {
        if !source.1 {
            let right = weight_source(shards, rights, plan.axes, inner, columns)->Ok_0;
            let into = staged_block(shards, weights, plan.axes, inner, columns)->Ok_0;
            if resides(shards, right, tile) {
                let copies = view_copies(
                    target,
                    shards,
                    source.0,
                    into,
                    ExchangeOrder::Semantic,
                )->Ok_0;
                assert(stands_at(more.copies, on_tile(copies, tile), w.copies.len() as int));
            } else {
                lemma_added_transfer(w.transfers, source.0, into);
            }
        }
    }
}

/// All panels of a block are in place, or on their way to staging.
pub open spec fn panels_ready<M: Target>(
    target: &M,
    shards: Seq<ShardModel>,
    plan: ReductionPlan,
    rights: Seq<LowShardId>,
    weights: Option<LowShardId>,
    tile: u16,
    start: int,
    columns: (u32, u32),
    w: PartialModel,
    sources: Seq<PanelSource>,
) -> bool {
    forall|q: int|
        0 <= q < sources.len() ==> panel_ready(
            target,
            shards,
            plan,
            rights,
            weights,
            tile,
            panel_range(plan, start, q),
            columns,
            w,
            #[trigger] sources[q],
        )
}

proof fn lemma_panels_still_ready<M: Target>(
    target: &M,
    shards: Seq<ShardModel>,
    plan: ReductionPlan,
    rights: Seq<LowShardId>,
    weights: Option<LowShardId>,
    tile: u16,
    start: int,
    columns: (u32, u32),
    a: PartialModel,
    b: PartialModel,
    sources: Seq<PanelSource>,
)
    requires
        partials_grow(a, b),
        panels_ready(target, shards, plan, rights, weights, tile, start, columns, a, sources),
    ensures
        panels_ready(target, shards, plan, rights, weights, tile, start, columns, b, sources),
{
    assert forall|q: int| 0 <= q < sources.len() implies panel_ready(
        target,
        shards,
        plan,
        rights,
        weights,
        tile,
        panel_range(plan, start, q),
        columns,
        b,
        #[trigger] sources[q],
    ) by {
        lemma_panel_still_ready(
            target,
            shards,
            plan,
            rights,
            weights,
            tile,
            panel_range(plan, start, q),
            columns,
            a,
            b,
            sources[q],
        );
    }
}

proof fn lemma_bring_panels<M: Target>(
    target: &M,
    shards: Seq<ShardModel>,
    plan: ReductionPlan,
    rights: Seq<LowShardId>,
    weights: Option<LowShardId>,
    tile: u16,
    base: int,
    start: int,
    end: int,
    columns: (u32, u32),
    w: PartialModel,
    done: Seq<PanelSource>,
)
    requires
        start == base + done.len() * plan.panel_block,
        sources_agree(w.transfers),
        panels_ready(target, shards, plan, rights, weights, tile, base, columns, w, done),
    ensures
        match bring_panels_from(
            target,
            shards,
            plan,
            rights,
            weights,
            tile,
            start,
            end,
            columns,
            w,
            done,
        ) {
            Err(_) => true,
            Ok((more, all)) => {
                &&& partials_grow(w, more)
                &&& sources_agree(more.transfers)
                &&& panels_ready(
                    target,
                    shards,
                    plan,
                    rights,
                    weights,
                    tile,
                    base,
                    columns,
                    more,
                    all,
                )
                &&& base + all.len() * plan.panel_block >= end
            },
        },
    decreases
            (if start < end {
                end - start
            } else {
                0
            }),
{
    if start < end && plan.panel_block != 0 && start + plan.panel_block <= u32::MAX {
        let inner = (start as u32, (start + plan.panel_block) as u32);
        lemma_bring_panel(target, shards, plan, rights, weights, tile, inner, columns, w);
        if let Ok((more, source)) = bring_panel(
            target,
            shards,
            plan,
            rights,
            weights,
            tile,
            inner,
            columns,
            w,
        ) {
            let next = done.push(source);
            assert(base + (done.len() + 1) * plan.panel_block == start + plan.panel_block)
                by (nonlinear_arith)
                requires
                    start == base + done.len() * plan.panel_block,
            ;
            lemma_panels_still_ready(
                target,
                shards,
                plan,
                rights,
                weights,
                tile,
                base,
                columns,
                w,
                more,
                done,
            );
            assert(panel_range(plan, base, done.len() as int) == inner);
            assert forall|q: int| 0 <= q < next.len() implies panel_ready(
                target,
                shards,
                plan,
                rights,
                weights,
                tile,
                panel_range(plan, base, q),
                columns,
                more,
                #[trigger] next[q],
            ) by {
                if q < done.len() {
                    assert(next[q] == done[q]);
                }
            }
            lemma_bring_panels(
                target,
                shards,
                plan,
                rights,
                weights,
                tile,
                base,
                start + plan.panel_block,
                end,
                columns,
                more,
                next,
            );
            if let Ok((most, all)) = bring_panels_from(
                target,
                shards,
                plan,
                rights,
                weights,
                tile,
                start,
                end,
                columns,
                w,
                done,
            ) {
                lemma_partials_grow_on(w, more, most);
            }
        }
    }
}

// ---------------------------------------------------------------- runs

/// The run that contributes a range of the inner axis to a partial result.
pub open spec fn partial_run(
    shards: Seq<ShardModel>,
    plan: ReductionPlan,
    kernels: GemmKernels,
    initial: bool,
    left: ViewModel,
    weights: ViewModel,
    partial: ViewModel,
    inner: (u32, u32),
    columns: (u32, u32),
) -> RunModel {
    operator_run(
        WorkProvenance {
            operation: plan.source,
            value: Some(plan.output),
            reason: WorkReason::OperatorKernel,
        },
        sized_kernel(
            if initial {
                kernels.initialize
            } else {
                kernels.accumulate
            },
            shards[weights.shard.0 as int].tensor_type.format.layout.memory_class,
            (inner.1 - inner.0) as u32,
            (columns.1 - columns.0) as u32,
        ),
        seq![seq![left], seq![weights]],
        partial,
        kernels.requirements,
    )
}

/// The work has a run on a tile.
pub open spec fn has_run(w: PartialModel, tile: u16, run: RunModel) -> bool {
    exists|i: int| 0 <= i < w.runs.len() && #[trigger] w.runs[i] == (tile, run)
}

proof fn lemma_still_has_run(a: PartialModel, b: PartialModel, tile: u16, run: RunModel)
    requires
        partials_grow(a, b),
        has_run(a, tile, run),
    ensures
        has_run(b, tile, run),
{
    let i = choose|i: int| 0 <= i < a.runs.len() && #[trigger] a.runs[i] == (tile, run);
    assert(b.runs[i] == (tile, run));
}

/// What a block of a partial result is made of.
pub struct PartialBlock {
    pub left: LowShardId,
    pub weights: Option<LowShardId>,
    pub partial: ViewModel,
    pub tile: u16,
    pub columns: (u32, u32),
}

/// The work contributes a range of the inner axis, with the given weights.
pub open spec fn contributes(
    shards: Seq<ShardModel>,
    plan: ReductionPlan,
    kernels: GemmKernels,
    block: PartialBlock,
    w: PartialModel,
    initial: bool,
    weights: ViewModel,
    inner: (u32, u32),
) -> bool {
    match narrow_view(shards, block.left, seq![(plan.axes.left_inner, inner.0, inner.1)]) {
        Err(_) => false,
        Ok(left) => weights.shard.0 < shards.len() && has_run(
            w,
            block.tile,
            partial_run(
                shards,
                plan,
                kernels,
                initial,
                left,
                weights,
                block.partial,
                inner,
                block.columns,
            ),
        ),
    }
}

proof fn lemma_still_contributes(
    shards: Seq<ShardModel>,
    plan: ReductionPlan,
    kernels: GemmKernels,
    block: PartialBlock,
    a: PartialModel,
    b: PartialModel,
    initial: bool,
    weights: ViewModel,
    inner: (u32, u32),
)
    requires
        partials_grow(a, b),
        contributes(shards, plan, kernels, block, a, initial, weights, inner),
    ensures
        contributes(shards, plan, kernels, block, b, initial, weights, inner),
{
    let left = narrow_view(
        shards,
        block.left,
        seq![(plan.axes.left_inner, inner.0, inner.1)],
    )->Ok_0;
    lemma_still_has_run(
        a,
        b,
        block.tile,
        partial_run(
            shards,
            plan,
            kernels,
            initial,
            left,
            weights,
            block.partial,
            inner,
            block.columns,
        ),
    );
}

proof fn lemma_add_partial_run(
    shards: Seq<ShardModel>,
    plan: ReductionPlan,
    kernels: GemmKernels,
    block: PartialBlock,
    initial: bool,
    weights: ViewModel,
    inner: (u32, u32),
    w: PartialModel,
)
    ensures
        match add_partial_run(
            shards,
            plan,
            kernels,
            initial,
            block.left,
            weights,
            block.partial,
            block.tile,
            inner,
            block.columns,
            w,
        ) {
            Err(_) => true,
            Ok(more) => {
                &&& partials_grow(w, more)
                &&& more.transfers == w.transfers
                &&& contributes(shards, plan, kernels, block, more, initial, weights, inner)
            },
        },
{
    if let Ok(more) = add_partial_run(
        shards,
        plan,
        kernels,
        initial,
        block.left,
        weights,
        block.partial,
        block.tile,
        inner,
        block.columns,
        w,
    ) {
        let left = narrow_view(
            shards,
            block.left,
            seq![(plan.axes.left_inner, inner.0, inner.1)],
        )->Ok_0;
        let run = partial_run(
            shards,
            plan,
            kernels,
            initial,
            left,
            weights,
            block.partial,
            inner,
            block.columns,
        );
        assert(more.runs[w.runs.len() as int] == (block.tile, run));
    }
}

/// The weights of a panel: in place, or where they are staged.
pub open spec fn panel_weights(
    shards: Seq<ShardModel>,
    plan: ReductionPlan,
    block: PartialBlock,
    source: PanelSource,
    inner: (u32, u32),
) -> Result<ViewModel, crate::low::LowLoweringError> {
    if source.1 {
        Ok(source.0)
    } else {
        staged_block(shards, block.weights, plan.axes, inner, block.columns)
    }
}

/// The work contributes a panel.
pub open spec fn panel_contributed(
    shards: Seq<ShardModel>,
    plan: ReductionPlan,
    kernels: GemmKernels,
    block: PartialBlock,
    w: PartialModel,
    initial: bool,
    start: int,
    q: int,
    source: PanelSource,
) -> bool {
    match panel_weights(shards, plan, block, source, panel_range(plan, start, q)) {
        Err(_) => false,
        Ok(weights) => contributes(
            shards,
            plan,
            kernels,
            block,
            w,
            initial,
            weights,
            panel_range(plan, start, q),
        ),
    }
}

proof fn lemma_add_panel_runs(
    shards: Seq<ShardModel>,
    plan: ReductionPlan,
    kernels: GemmKernels,
    block: PartialBlock,
    first_block: bool,
    sources: Seq<PanelSource>,
    start: int,
    p: int,
    w: PartialModel,
)
    requires
        0 <= p,
    ensures
        match add_panel_runs_from(
            shards,
            plan,
            kernels,
            first_block,
            block.left,
            block.weights,
            sources,
            block.partial,
            block.tile,
            start,
            block.columns,
            p,
            w,
        ) {
            Err(_) => true,
            Ok(more) => {
                &&& partials_grow(w, more)
                &&& more.transfers == w.transfers
                &&& forall|q: int|
                    p <= q < sources.len() ==> panel_contributed(
                        shards,
                        plan,
                        kernels,
                        block,
                        more,
                        first_block && q == 0,
                        start,
                        q,
                        #[trigger] sources[q],
                    )
            },
        },
    decreases sources.len() - p,
{
    if p < sources.len() {
        let inner = panel_range(plan, start, p);
        if let Ok(weights) = panel_weights(shards, plan, block, sources[p], inner) {
            let initial = first_block && p == 0;
            lemma_add_partial_run(shards, plan, kernels, block, initial, weights, inner, w);
            if let Ok(more) = add_partial_run(
                shards,
                plan,
                kernels,
                initial,
                block.left,
                weights,
                block.partial,
                block.tile,
                inner,
                block.columns,
                w,
            ) {
                lemma_add_panel_runs(
                    shards,
                    plan,
                    kernels,
                    block,
                    first_block,
                    sources,
                    start,
                    p + 1,
                    more,
                );
                if let Ok(most) = add_panel_runs_from(
                    shards,
                    plan,
                    kernels,
                    first_block,
                    block.left,
                    block.weights,
                    sources,
                    block.partial,
                    block.tile,
                    start,
                    block.columns,
                    p,
                    w,
                ) {
                    lemma_partials_grow_on(w, more, most);
                    lemma_still_contributes(
                        shards,
                        plan,
                        kernels,
                        block,
                        more,
                        most,
                        initial,
                        weights,
                        inner,
                    );
                }
            }
        }
    }
}

/// The work contributes a block of the inner axis: in one run, or panel by
/// panel.
pub open spec fn block_contributed(
    shards: Seq<ShardModel>,
    plan: ReductionPlan,
    kernels: GemmKernels,
    block: PartialBlock,
    w: PartialModel,
    initial: bool,
    inner: (u32, u32),
    sources: Seq<PanelSource>,
) -> bool {
    if sources.len() > 1 && any_direct(sources) {
        forall|q: int|
            0 <= q < sources.len() ==> panel_contributed(
                shards,
                plan,
                kernels,
                block,
                w,
                initial && q == 0,
                inner.0 as int,
                q,
                #[trigger] sources[q],
            )
    } else {
        match (if sources.len() == 1 && sources[0].1 {
            Ok(sources[0].0)
        } else {
            staged_block(shards, block.weights, plan.axes, inner, block.columns)
        }) {
            Err(_) => false,
            Ok(weights) => contributes(
                shards,
                plan,
                kernels,
                block,
                w,
                initial,
                weights,
                inner,
            ),
        }
    }
}

proof fn lemma_add_block_runs(
    shards: Seq<ShardModel>,
    plan: ReductionPlan,
    kernels: GemmKernels,
    block: PartialBlock,
    initial: bool,
    sources: Seq<PanelSource>,
    inner: (u32, u32),
    w: PartialModel,
)
    ensures
        match add_block_runs(
            shards,
            plan,
            kernels,
            initial,
            block.left,
            block.weights,
            sources,
            block.partial,
            block.tile,
            inner,
            block.columns,
            w,
        ) {
            Err(_) => true,
            Ok(more) => {
                &&& partials_grow(w, more)
                &&& more.transfers == w.transfers
                &&& block_contributed(
                    shards,
                    plan,
                    kernels,
                    block,
                    more,
                    initial,
                    inner,
                    sources,
                )
            },
        },
{
    if sources.len() > 1 && any_direct(sources) {
        lemma_add_panel_runs(
            shards,
            plan,
            kernels,
            block,
            initial,
            sources,
            inner.0 as int,
            0,
            w,
        );
    } else {
        let step = if sources.len() == 1 && sources[0].1 {
            Ok(sources[0].0)
        } else {
            staged_block(shards, block.weights, plan.axes, inner, block.columns)
        };
        if let Ok(weights) = step {
            lemma_add_partial_run(shards, plan, kernels, block, initial, weights, inner, w);
        }
    }
}

/// The work adds a block of the inner axis to a partial result: its weights are
/// in place or on their way, and its runs are there.
pub open spec fn block_added<M: Target>(
    target: &M,
    shards: Seq<ShardModel>,
    plan: ReductionPlan,
    kernels: GemmKernels,
    rights: Seq<LowShardId>,
    block: PartialBlock,
    w: PartialModel,
    initial: bool,
    start: int,
    sources: Seq<PanelSource>,
) -> bool {
    let end = start + plan.inner_block;
    &&& start + sources.len() * plan.panel_block >= end
    &&& panels_ready(
        target,
        shards,
        plan,
        rights,
        block.weights,
        block.tile,
        start,
        block.columns,
        w,
        sources,
    )
    &&& block_contributed(
        shards,
        plan,
        kernels,
        block,
        w,
        initial,
        (start as u32, end as u32),
        sources,
    )
}

/// The work adds a block of the inner axis to a partial result.
pub open spec fn adds_block<M: Target>(
    target: &M,
    shards: Seq<ShardModel>,
    plan: ReductionPlan,
    kernels: GemmKernels,
    rights: Seq<LowShardId>,
    block: PartialBlock,
    w: PartialModel,
    initial: bool,
    start: int,
) -> bool {
    exists|sources: Seq<PanelSource>| #[trigger]
        block_added(
            target,
            shards,
            plan,
            kernels,
            rights,
            block,
            w,
            initial,
            start,
            sources,
        )
}

proof fn lemma_still_adds<M: Target>(
    target: &M,
    shards: Seq<ShardModel>,
    plan: ReductionPlan,
    kernels: GemmKernels,
    rights: Seq<LowShardId>,
    block: PartialBlock,
    a: PartialModel,
    b: PartialModel,
    initial: bool,
    start: int,
)
    requires
        partials_grow(a, b),
        adds_block(target, shards, plan, kernels, rights, block, a, initial, start),
    ensures
        adds_block(target, shards, plan, kernels, rights, block, b, initial, start),
{
    let sources = choose|sources: Seq<PanelSource>| #[trigger]
        block_added(
            target,
            shards,
            plan,
            kernels,
            rights,
            block,
            a,
            initial,
            start,
            sources,
        );
    let inner = (start as u32, (start + plan.inner_block) as u32);
    lemma_panels_still_ready(
        target,
        shards,
        plan,
        rights,
        block.weights,
        block.tile,
        start,
        block.columns,
        a,
        b,
        sources,
    );
    if sources.len() > 1 && any_direct(sources) {
        assert forall|q: int| 0 <= q < sources.len() implies panel_contributed(
            shards,
            plan,
            kernels,
            block,
            b,
            initial && q == 0,
            inner.0 as int,
            q,
            #[trigger] sources[q],
        ) by {
            assert(panel_contributed(
                shards,
                plan,
                kernels,
                block,
                a,
                initial && q == 0,
                inner.0 as int,
                q,
                sources[q],
            ));
            let range = panel_range(plan, inner.0 as int, q);
            let weights = panel_weights(shards, plan, block, sources[q], range)->Ok_0;
            lemma_still_contributes(
                shards,
                plan,
                kernels,
                block,
                a,
                b,
                initial && q == 0,
                weights,
                range,
            );
        }
    } else {
        let step = if sources.len() == 1 && sources[0].1 {
            Ok(sources[0].0)
        } else {
            staged_block(shards, block.weights, plan.axes, inner, block.columns)
        };
        lemma_still_contributes(
            shards,
            plan,
            kernels,
            block,
            a,
            b,
            initial,
            step->Ok_0,
            inner,
        );
    }
    assert(block_added(
        target,
        shards,
        plan,
        kernels,
        rights,
        block,
        b,
        initial,
        start,
        sources,
    ));
}

proof fn lemma_add_blocks<M: Target>(
    target: &M,
    shards: Seq<ShardModel>,
    plan: ReductionPlan,
    kernels: GemmKernels,
    rights: Seq<LowShardId>,
    block: PartialBlock,
    inner: ShardExtent,
    at: int,
    start: int,
    w: PartialModel,
)
    requires
        plan.inner_block > 0,
        0 <= at,
        start == inner.start + at * plan.inner_block,
        sources_agree(w.transfers),
    ensures
        match add_blocks_from(
            target,
            shards,
            plan,
            kernels,
            rights,
            block.left,
            block.weights,
            block.partial,
            block.tile,
            inner,
            block.columns,
            start,
            w,
        ) {
            Err(_) => true,
            Ok(more) => {
                &&& partials_grow(w, more)
                &&& sources_agree(more.transfers)
                &&& forall|b: int|
                    at <= b && inner.start + #[trigger] (b * plan.inner_block)
                        < inner.physical_end ==> adds_block(
                        target,
                        shards,
                        plan,
                        kernels,
                        rights,
                        block,
                        more,
                        b == 0,
                        inner.start + b * plan.inner_block,
                    )
            },
        },
    decreases
            (if start < inner.physical_end {
                inner.physical_end - start
            } else {
                0
            }),
{
    let ib = plan.inner_block as int;
    if start < inner.physical_end {
        let end = start + plan.inner_block;
        let first = start == inner.start;
        assert(first == (at == 0)) by (nonlinear_arith)
            requires
                start == inner.start + at * ib,
                0 <= at,
                ib > 0,
                first == (start == inner.start),
        ;
        lemma_bring_panels(
            target,
            shards,
            plan,
            rights,
            block.weights,
            block.tile,
            start,
            start,
            end,
            block.columns,
            w,
            Seq::empty(),
        );
        if let Ok((more, sources)) = bring_panels_from(
            target,
            shards,
            plan,
            rights,
            block.weights,
            block.tile,
            start,
            end,
            block.columns,
            w,
            Seq::empty(),
        ) {
            let range = (start as u32, end as u32);
            lemma_add_block_runs(shards, plan, kernels, block, first, sources, range, more);
            if let Ok(most) = add_block_runs(
                shards,
                plan,
                kernels,
                first,
                block.left,
                block.weights,
                sources,
                block.partial,
                block.tile,
                range,
                block.columns,
                more,
            ) {
                lemma_partials_grow_on(w, more, most);
                lemma_panels_still_ready(
                    target,
                    shards,
                    plan,
                    rights,
                    block.weights,
                    block.tile,
                    start,
                    block.columns,
                    more,
                    most,
                    sources,
                );
                assert(block_added(
                    target,
                    shards,
                    plan,
                    kernels,
                    rights,
                    block,
                    most,
                    first,
                    start,
                    sources,
                ));
                assert((at + 1) * ib == at * ib + ib) by (nonlinear_arith);
                lemma_add_blocks(
                    target,
                    shards,
                    plan,
                    kernels,
                    rights,
                    block,
                    inner,
                    at + 1,
                    end,
                    most,
                );
                if let Ok(all) = add_blocks_from(
                    target,
                    shards,
                    plan,
                    kernels,
                    rights,
                    block.left,
                    block.weights,
                    block.partial,
                    block.tile,
                    inner,
                    block.columns,
                    start,
                    w,
                ) {
                    lemma_partials_grow_on(w, most, all);
                    lemma_still_adds(
                        target,
                        shards,
                        plan,
                        kernels,
                        rights,
                        block,
                        most,
                        all,
                        first,
                        start,
                    );
                    assert forall|b: int|
                        at <= b && inner.start + #[trigger] (b * plan.inner_block)
                            < inner.physical_end implies adds_block(
                        target,
                        shards,
                        plan,
                        kernels,
                        rights,
                        block,
                        all,
                        b == 0,
                        inner.start + b * plan.inner_block,
                    ) by {}
                }
            }
        }
    } else {
        assert forall|b: int|
            at <= b && inner.start + #[trigger] (b * plan.inner_block)
                < inner.physical_end implies false by {
            assert(b * ib >= at * ib) by (nonlinear_arith)
                requires
                    at <= b,
                    ib > 0,
            ;
        }
    }
}

// ---------------------------------------------------------------- left shards

/// The inner axis of a left shard.
pub open spec fn inner_of(plan: ReductionPlan, left: ShardModel) -> ShardExtent {
    left.extents[plan.axes.left_inner as int]
}

/// The work adds all of a left shard to a recorded partial result.
pub open spec fn adds_left_with<M: Target>(
    target: &M,
    plan: ReductionPlan,
    kernels: GemmKernels,
    rights: Seq<LowShardId>,
    partial: TypeModel,
    left: ShardModel,
    columns: Columns,
    w: PartialModel,
    shards: Seq<ShardModel>,
    block: PartialBlock,
) -> bool {
    let inner = inner_of(plan, left);
    let resolved = target.spec_resolve(partial.format.layout, partial.shape);
    &&& block.tile == left.tile
    &&& block.columns == (columns.0, columns.2)
    &&& resolved is Ok
    &&& block.partial.extents == partial_extents(
        plan,
        left.extents,
        partial.shape,
        resolved->Ok_0.padded_shape,
        columns,
    )
    &&& is_recorded(w.partials, (left.tile, block.partial))
    &&& forall|b: int|
        0 <= b && inner.start + #[trigger] (b * plan.inner_block) < inner.physical_end ==> adds_block(
            target,
            shards,
            plan,
            kernels,
            rights,
            block,
            w,
            b == 0,
            inner.start + b * plan.inner_block,
        )
}

/// The work adds all of a left shard to a recorded partial result.
pub open spec fn adds_left<M: Target>(
    target: &M,
    plan: ReductionPlan,
    kernels: GemmKernels,
    rights: Seq<LowShardId>,
    partial: TypeModel,
    left: ShardModel,
    columns: Columns,
    w: PartialModel,
) -> bool {
    exists|shards: Seq<ShardModel>, block: PartialBlock| #[trigger]
        adds_left_with(
            target,
            plan,
            kernels,
            rights,
            partial,
            left,
            columns,
            w,
            shards,
            block,
        )
}

proof fn lemma_still_adds_left<M: Target>(
    target: &M,
    plan: ReductionPlan,
    kernels: GemmKernels,
    rights: Seq<LowShardId>,
    partial: TypeModel,
    left: ShardModel,
    columns: Columns,
    a: PartialModel,
    b: PartialModel,
)
    requires
        partials_grow(a, b),
        adds_left(target, plan, kernels, rights, partial, left, columns, a),
    ensures
        adds_left(target, plan, kernels, rights, partial, left, columns, b),
{
    let (shards, block) = choose|shards: Seq<ShardModel>, block: PartialBlock| #[trigger]
        adds_left_with(
            target,
            plan,
            kernels,
            rights,
            partial,
            left,
            columns,
            a,
            shards,
            block,
        );
    let inner = inner_of(plan, left);
    assert forall|n: int|
        0 <= n && inner.start + #[trigger] (n * plan.inner_block)
            < inner.physical_end implies adds_block(
        target,
        shards,
        plan,
        kernels,
        rights,
        block,
        b,
        n == 0,
        inner.start + n * plan.inner_block,
    ) by {
        lemma_still_adds(
            target,
            shards,
            plan,
            kernels,
            rights,
            block,
            a,
            b,
            n == 0,
            inner.start + n * plan.inner_block,
        );
    }
    assert(adds_left_with(
        target,
        plan,
        kernels,
        rights,
        partial,
        left,
        columns,
        b,
        shards,
        block,
    ));
}

proof fn lemma_contribute<M: Target>(
    target: &M,
    s: StateModel,
    plan: ReductionPlan,
    kernels: GemmKernels,
    rights: Seq<LowShardId>,
    outputs: Seq<LowShardId>,
    partial: TypeModel,
    left: ShardModel,
    resident: LowShardId,
    columns: Columns,
    w: PartialModel,
)
    requires
        plan.inner_block > 0,
        sources_agree(w.transfers),
    ensures
        match contribute(
            target,
            s,
            plan,
            kernels,
            rights,
            outputs,
            partial,
            left,
            resident,
            columns,
            w,
        ) {
            Err(_) => true,
            Ok((t, more)) => {
                &&& only_adds_shards(s, t)
                &&& partials_grow(w, more)
                &&& sources_agree(more.transfers)
                &&& adds_left(target, plan, kernels, rights, partial, left, columns, more)
            },
        },
{
    if let Ok((t, more)) = contribute(
        target,
        s,
        plan,
        kernels,
        rights,
        outputs,
        partial,
        left,
        resident,
        columns,
        w,
    ) {
        let resolved = target.spec_resolve(partial.format.layout, partial.shape)->Ok_0;
        let extents = partial_extents(
            plan,
            left.extents,
            partial.shape,
            resolved.padded_shape,
            columns,
        );
        let inner = inner_of(plan, left);
        let (a, id) = partial_storage(s, outputs, left.tile, partial, extents)->Ok_0;
        let view = ViewModel { shard: id, extents };
        let recorded = record_partial(w, left.tile, view);
        lemma_record(w.partials, footprint_key(extents), (left.tile, view));
        assert(partials_grow(w, recorded));
        let (b, (some, weights)) = weights_storage(
            a,
            plan,
            rights,
            inner,
            left.tile,
            (columns.0, columns.2),
            recorded,
        )->Ok_0;
        assert(partials_grow(recorded, some));
        assert(only_adds_shards(s, a));
        assert(only_adds_shards(a, b));
        lemma_begins_on(s.shards, a.shards, b.shards);
        lemma_partials_grow_on(w, recorded, some);
        let block = PartialBlock {
            left: resident,
            weights,
            partial: view,
            tile: left.tile,
            columns: (columns.0, columns.2),
        };
        lemma_add_blocks(
            target,
            b.shards,
            plan,
            kernels,
            rights,
            block,
            inner,
            0,
            inner.start as int,
            some,
        );
        lemma_partials_grow_on(w, some, more);
        lemma_partials_grow_on(recorded, some, more);
        assert(is_recorded(more.partials, (left.tile, view)));
        assert(adds_left_with(
            target,
            plan,
            kernels,
            rights,
            partial,
            left,
            columns,
            more,
            b.shards,
            block,
        ));
    }
}

proof fn lemma_resident_left<M: Target>(
    target: &M,
    s: StateModel,
    plan: ReductionPlan,
    id: LowShardId,
    w: PartialModel,
)
    requires
        sources_agree(w.transfers),
    ensures
        match resident_left(target, s, plan, id, w) {
            Err(_) => true,
            Ok((t, (more, _))) => {
                &&& only_adds_shards(s, t)
                &&& partials_grow(w, more)
                &&& sources_agree(more.transfers)
            },
        },
{
    if let Ok((t, (more, view))) = resident_left(target, s, plan, id, w) {
        if resident_left_from(w.lefts, id, 0) is None {
            if let Some(source) = converted_from(s, plan.left) {
                let tile = s.shards[id.0 as int].tile;
                let ranges = whole_ranges(s.shards[id.0 as int].extents);
                let local = local_shard(s, plan.left, tile)->Ok_0;
                let whole = narrow_view(s.shards, local, ranges)->Ok_0;
                let staging = LowShardId(s.shards.len() as u32);
                let ids = value_shards(t, source)->Ok_0;
                let parts = intersecting(t.shards, ids, whole.extents, tile);
                lemma_place_from(
                    target,
                    t.shards,
                    onto(parts, staging),
                    tile,
                    ExchangeOrder::Semantic,
                    0,
                    (w.transfers, w.copies),
                );
            }
        }
    }
}

proof fn lemma_add_left<M: Target>(
    target: &M,
    s: StateModel,
    plan: ReductionPlan,
    kernels: GemmKernels,
    rights: Seq<LowShardId>,
    outputs: Seq<LowShardId>,
    partial: TypeModel,
    left: LowShardId,
    computes: bool,
    columns: Columns,
    w: PartialModel,
)
    requires
        plan.inner_block > 0,
        sources_agree(w.transfers),
    ensures
        match add_left(
            target,
            s,
            plan,
            kernels,
            rights,
            outputs,
            partial,
            left,
            computes,
            columns,
            w,
        ) {
            Err(_) => true,
            Ok((t, more)) => {
                &&& only_adds_shards(s, t)
                &&& partials_grow(w, more)
                &&& sources_agree(more.transfers)
                &&& left.0 < s.shards.len()
                &&& computes ==> adds_left(
                    target,
                    plan,
                    kernels,
                    rights,
                    partial,
                    s.shards[left.0 as int],
                    columns,
                    more,
                )
            },
        },
{
    if let Ok((t, most)) = add_left(
        target,
        s,
        plan,
        kernels,
        rights,
        outputs,
        partial,
        left,
        computes,
        columns,
        w,
    ) {
        lemma_resident_left(target, s, plan, left, w);
        let (a, (more, view)) = resident_left(target, s, plan, left, w)->Ok_0;
        if computes {
            lemma_contribute(
                target,
                a,
                plan,
                kernels,
                rights,
                outputs,
                partial,
                s.shards[left.0 as int],
                view.shard,
                columns,
                more,
            );
            lemma_begins_on(s.shards, a.shards, t.shards);
            lemma_partials_grow_on(w, more, most);
        }
    }
}

proof fn lemma_add_lefts<M: Target>(
    target: &M,
    s: StateModel,
    plan: ReductionPlan,
    kernels: GemmKernels,
    lefts: Seq<LowShardId>,
    replicas: Seq<u32>,
    rights: Seq<LowShardId>,
    outputs: Seq<LowShardId>,
    partial: TypeModel,
    partition: int,
    columns: Columns,
    k: int,
    w: PartialModel,
)
    requires
        0 <= k,
        plan.inner_block > 0,
        sources_agree(w.transfers),
    ensures
        match add_lefts_from(
            target,
            s,
            plan,
            kernels,
            lefts,
            replicas,
            rights,
            outputs,
            partial,
            partition,
            columns,
            k,
            w,
        ) {
            Err(_) => true,
            Ok((t, more)) => {
                &&& only_adds_shards(s, t)
                &&& partials_grow(w, more)
                &&& sources_agree(more.transfers)
                &&& forall|l: int|
                    k <= l < lefts.len() && replicas[l] == partition && (#[trigger] lefts[l]).0
                        < s.shards.len() ==> adds_left(
                        target,
                        plan,
                        kernels,
                        rights,
                        partial,
                        s.shards[lefts[l].0 as int],
                        columns,
                        more,
                    )
            },
        },
    decreases lefts.len() - k,
{
    if k < lefts.len() {
        let computes = replicas[k] == partition;
        lemma_add_left(
            target,
            s,
            plan,
            kernels,
            rights,
            outputs,
            partial,
            lefts[k],
            computes,
            columns,
            w,
        );
        if let Ok((next, more)) = add_left(
            target,
            s,
            plan,
            kernels,
            rights,
            outputs,
            partial,
            lefts[k],
            computes,
            columns,
            w,
        ) {
            lemma_add_lefts(
                target,
                next,
                plan,
                kernels,
                lefts,
                replicas,
                rights,
                outputs,
                partial,
                partition,
                columns,
                k + 1,
                more,
            );
            if let Ok((t, most)) = add_lefts_from(
                target,
                s,
                plan,
                kernels,
                lefts,
                replicas,
                rights,
                outputs,
                partial,
                partition,
                columns,
                k,
                w,
            ) {
                lemma_begins_on(s.shards, next.shards, t.shards);
                lemma_partials_grow_on(w, more, most);
                assert forall|l: int|
                    k <= l < lefts.len() && replicas[l] == partition && (
                    #[trigger] lefts[l]).0 < s.shards.len() implies adds_left(
                    target,
                    plan,
                    kernels,
                    rights,
                    partial,
                    s.shards[lefts[l].0 as int],
                    columns,
                    most,
                ) by {
                    assert(next.shards[lefts[l].0 as int] == s.shards[lefts[l].0 as int]);
                    if l == k {
                        lemma_still_adds_left(
                            target,
                            plan,
                            kernels,
                            rights,
                            partial,
                            s.shards[lefts[l].0 as int],
                            columns,
                            more,
                            most,
                        );
                    }
                }
            }
        }
    }
}

proof fn lemma_add_partitions<M: Target>(
    target: &M,
    s: StateModel,
    plan: ReductionPlan,
    kernels: GemmKernels,
    lefts: Seq<LowShardId>,
    replicas: Seq<u32>,
    rights: Seq<LowShardId>,
    outputs: Seq<LowShardId>,
    partial: TypeModel,
    partitions: Seq<Columns>,
    p: int,
    w: PartialModel,
)
    requires
        0 <= p,
        plan.inner_block > 0,
        sources_agree(w.transfers),
    ensures
        match add_partitions_from(
            target,
            s,
            plan,
            kernels,
            lefts,
            replicas,
            rights,
            outputs,
            partial,
            partitions,
            p,
            w,
        ) {
            Err(_) => true,
            Ok((t, more)) => {
                &&& only_adds_shards(s, t)
                &&& partials_grow(w, more)
                &&& sources_agree(more.transfers)
                &&& forall|l: int|
                    0 <= l < lefts.len() && p <= replicas[l] < partitions.len() && (
                    #[trigger] lefts[l]).0 < s.shards.len() ==> adds_left(
                        target,
                        plan,
                        kernels,
                        rights,
                        partial,
                        s.shards[lefts[l].0 as int],
                        partitions[replicas[l] as int],
                        more,
                    )
            },
        },
    decreases partitions.len() - p,
{
    if p < partitions.len() {
        lemma_add_lefts(
            target,
            s,
            plan,
            kernels,
            lefts,
            replicas,
            rights,
            outputs,
            partial,
            p,
            partitions[p],
            0,
            w,
        );
        if let Ok((next, more)) = add_lefts_from(
            target,
            s,
            plan,
            kernels,
            lefts,
            replicas,
            rights,
            outputs,
            partial,
            p,
            partitions[p],
            0,
            w,
        ) {
            lemma_add_partitions(
                target,
                next,
                plan,
                kernels,
                lefts,
                replicas,
                rights,
                outputs,
                partial,
                partitions,
                p + 1,
                more,
            );
            if let Ok((t, most)) = add_partitions_from(
                target,
                s,
                plan,
                kernels,
                lefts,
                replicas,
                rights,
                outputs,
                partial,
                partitions,
                p,
                w,
            ) {
                lemma_begins_on(s.shards, next.shards, t.shards);
                lemma_partials_grow_on(w, more, most);
                assert forall|l: int|
                    0 <= l < lefts.len() && p <= replicas[l] < partitions.len() && (
                    #[trigger] lefts[l]).0 < s.shards.len() implies adds_left(
                    target,
                    plan,
                    kernels,
                    rights,
                    partial,
                    s.shards[lefts[l].0 as int],
                    partitions[replicas[l] as int],
                    most,
                ) by {
                    assert(next.shards[lefts[l].0 as int] == s.shards[lefts[l].0 as int]);
                    if replicas[l] == p {
                        lemma_still_adds_left(
                            target,
                            plan,
                            kernels,
                            rights,
                            partial,
                            s.shards[lefts[l].0 as int],
                            partitions[p],
                            more,
                            most,
                        );
                    }
                }
            }
        }
    }
}

/// Every left shard contributes all of its inner axis to a partial result, for
/// the columns that it is to compute: block by block, the first of which
/// initializes the result. The weights of a block are in place, or are brought
/// to staging.
pub proof fn lemma_every_left_shard_contributes<M: Target>(
    target: &M,
    s: StateModel,
    plan: ReductionPlan,
    kernels: GemmKernels,
    lefts: Seq<LowShardId>,
    replicas: Seq<u32>,
    rights: Seq<LowShardId>,
    outputs: Seq<LowShardId>,
    partial: TypeModel,
    partitions: Seq<Columns>,
    l: int,
)
    requires
        plan.inner_block > 0,
        0 <= l < lefts.len(),
        replicas[l] < partitions.len(),
        lefts[l].0 < s.shards.len(),
    ensures
        match add_partitions_from(
            target,
            s,
            plan,
            kernels,
            lefts,
            replicas,
            rights,
            outputs,
            partial,
            partitions,
            0,
            no_partials(),
        ) {
            Err(_) => true,
            Ok((_, w)) => adds_left(
                target,
                plan,
                kernels,
                rights,
                partial,
                s.shards[lefts[l].0 as int],
                partitions[replicas[l] as int],
                w,
            ),
        },
{
    lemma_add_partitions(
        target,
        s,
        plan,
        kernels,
        lefts,
        replicas,
        rights,
        outputs,
        partial,
        partitions,
        0,
        no_partials(),
    );
}

/// The work of partial results is carried out: what is to be sent is exchanged,
/// and copies and runs are made.
pub proof fn lemma_partial_work_is_scheduled(
    s: StateModel,
    plan: ReductionPlan,
    w: PartialModel,
)
    requires
        sources_agree(w.transfers),
    ensures
        match append_partials(s, plan, w) {
            Err(_) => true,
            Ok(t) => {
                &&& holds_on(s, t)
                &&& forall|a: ViewModel, b: ViewModel|
                    sends(w.transfers, a, b) ==> #[trigger] makes_exchange(t, a, b)
                &&& forall|copies: Seq<LocalCopy>, tile: u16|
                    #![trigger makes_copies(t, copies, tile)]
                    stands_in(w.copies, on_tile(copies, tile)) ==> makes_copies(t, copies, tile)
                &&& forall|i: int|
                    0 <= i < w.runs.len() ==> makes(
                        t,
                        t.shards,
                        (#[trigger] w.runs[i]).1,
                        w.runs[i].0,
                    )
            },
        },
{
    if let Ok(t) = append_partials(s, plan, w) {
        let provenance = WorkProvenance {
            operation: plan.source,
            value: Some(plan.right),
            reason: WorkReason::OperatorInput {
                input: match plan.orientation {
                    GemmOrientation::Normal => 1,
                    GemmOrientation::Swapped => 0,
                },
            },
        };
        let a = append_ordered_phase(s, w.transfers, provenance, ExchangeOrder::Semantic)->Ok_0;
        let b = append_copies_from(a, w.copies, 0)->Ok_0;
        lemma_append_phase(s, w.transfers, provenance, ExchangeOrder::Semantic);
        lemma_append_copies(a, w.copies, 0);
        lemma_append_runs(b, w.runs, 0);
        lemma_holds_on(s, a, b);
        lemma_holds_on(s, b, t);
        lemma_holds_on(a, b, t);
        assert forall|x: ViewModel, y: ViewModel| sends(w.transfers, x, y) implies
            #[trigger] makes_exchange(t, x, y) by {
            assert(makes_exchange(a, x, y));
            lemma_still_exchanges(a, t, x, y);
        }
        assert forall|copies: Seq<LocalCopy>, tile: u16|
            #![trigger makes_copies(t, copies, tile)]
            stands_in(w.copies, on_tile(copies, tile)) implies makes_copies(
            t,
            copies,
            tile,
        ) by {
            lemma_listed_copies_are_made(a, w.copies, copies, tile);
            lemma_still_copies(b, t, copies, tile);
        }
    }
}

} // verus!
