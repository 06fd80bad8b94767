//! Products that divide the inner axis over tiles: the partial results.

use crate::copies::with_view_copies;
use crate::extents::{min, min_u32};
use crate::gemm::{dispatch_input_view, in_interleaved, GemmKernels};
use crate::gemm_run::GemmRuns;
use crate::lookup::{first_block_from, resides};
use crate::low::{
    two_operands, ExchangeOrder, KernelRun, LocalCopy, LowLoweringError, LowLoweringResult,
    LowShard, LowShardId, RunModel, ShardDefinition, ShardModel, ShardView, ViewModel,
    WorkProvenance, WorkReason,
};
use crate::mid::{GemmOrientation, GemmWeightLoad, KernelModel, KernelSpec, TileKernelSpec};
use crate::model::{Model, copy_all, deep, group_deep};
use crate::order::{groups_insert, lemma_insert_nonempty, GroupModel, Groups};
use crate::phase::{add_transfer, add_transfer_to, transfers_nonempty};
use crate::pointwise::{new_operator_run, operator_run};
use crate::reduction_plan::{Columns, ProductAxes, ReductionPlan};
use crate::state::{
    found, gave, narrow_view, push_shard, shard_of, LoweringState, StateModel, StepWith, Transfers,
    TransfersModel,
};
use crate::target::Target;
use crate::tensor::{
    MemoryClass, ShardExtent, TensorType, TypeModel, AMP_COLUMN_MICRO,
};
use vstd::prelude::*;

verus! {

/// Partial results of one part of the output: the tile and view of each.
pub type Partials = Groups<(u16, ShardView)>;

/// Weights staged on a tile, by the first shard that they come from.
pub type StagedWeights = ((u16, LowShardId), LowShardId);

/// The work that computes partial results.
#[derive(Debug)]
pub struct PartialWork {
    pub transfers: Transfers,
    pub copies: Vec<(u16, LocalCopy)>,
    pub runs: Vec<(u16, KernelRun)>,
    pub partials: Partials,
    /// Resident left operands, by shard.
    pub lefts: Vec<(LowShardId, ShardView)>,
    pub weights: Vec<StagedWeights>,
}

/// Abstract value of [`PartialWork`].
pub struct PartialModel {
    pub transfers: TransfersModel,
    pub copies: Seq<(u16, LocalCopy)>,
    pub runs: Seq<(u16, RunModel)>,
    pub partials: Seq<GroupModel<(u16, ViewModel)>>,
    pub lefts: Seq<(LowShardId, ViewModel)>,
    pub weights: Seq<StagedWeights>,
}

impl View for PartialWork {
    type V = PartialModel;

    open spec fn view(&self) -> PartialModel {
        PartialModel {
            transfers: self.transfers@,
            copies: self.copies@,
            runs: deep(self.runs@),
            partials: self.partials@,
            lefts: deep(self.lefts@),
            weights: self.weights@,
        }
    }
}

// ---------------------------------------------------------------- left

/// The resident view of a left shard, from position `i` on.
pub open spec fn resident_left_from(
    lefts: Seq<(LowShardId, ViewModel)>,
    id: LowShardId,
    i: int,
) -> Option<ViewModel>
    decreases lefts.len() - i,
{
    if i >= lefts.len() {
        None
    } else if lefts[i].0 == id {
        Some(lefts[i].1)
    } else {
        resident_left_from(lefts, id, i + 1)
    }
}

/// The whole of a rectangle, axis by axis.
pub open spec fn whole_ranges(extents: Seq<ShardExtent>) -> Seq<(usize, u32, u32)> {
    Seq::new(
        extents.len(),
        |i: int| (i as usize, extents[i].start, extents[i].physical_end),
    )
}

/// Makes a left shard resident. Only a value that is materialized in slices may
/// come from elsewhere.
pub open spec fn resident_left<M: Target>(
    target: &M,
    s: StateModel,
    plan: ReductionPlan,
    id: LowShardId,
    w: PartialModel,
) -> StepWith<(PartialModel, ViewModel)> {
    match resident_left_from(w.lefts, id, 0) {
        Some(view) => Ok((s, (w, view))),
        None => match dispatch_input_view(
            target,
            s,
            plan.left,
            s.shards[id.0 as int].tile,
            whole_ranges(s.shards[id.0 as int].extents),
            (w.transfers, w.copies),
        ) {
            Err(e) => Err(e),
            Ok((next, ((transfers, copies), view))) => if !plan.slices && view.shard != id {
                Err(LowLoweringError::InvalidOperatorPlan)
            } else {
                Ok(
                    (
                        next,
                        (
                            PartialModel {
                                transfers,
                                copies,
                                lefts: w.lefts.push((id, view)),
                                ..w
                            },
                            view,
                        ),
                    ),
                )
            },
        },
    }
}

// ---------------------------------------------------------------- partial result

/// The whole padded tensor.
pub open spec fn tensor_extents(shape: Seq<u32>, padded: Seq<u32>) -> Seq<ShardExtent> {
    Seq::new(
        shape.len(),
        |i: int|
            ShardExtent {
                axis: i as u16,
                start: 0,
                logical_end: shape[i],
                physical_end: padded[i],
            },
    )
}

/// A range on another axis.
pub open spec fn on_axis(extent: ShardExtent, axis: int) -> ShardExtent {
    ShardExtent { axis: axis as u16, ..extent }
}

/// The rectangle of the output that a left shard contributes to. The leading
/// axes are those of the left shard, where it is the first operand.
pub open spec fn partial_extents(
    plan: ReductionPlan,
    left: Seq<ShardExtent>,
    shape: Seq<u32>,
    padded: Seq<u32>,
    columns: Columns,
) -> Seq<ShardExtent> {
    let axes = plan.axes;
    Seq::new(
        shape.len(),
        |i: int|
            if i == axes.output_column {
                ShardExtent {
                    axis: i as u16,
                    start: columns.0,
                    logical_end: columns.1,
                    physical_end: columns.2,
                }
            } else if i == axes.output_row {
                on_axis(left[axes.left_row as int], i)
            } else if plan.orientation == GemmOrientation::Normal && i < axes.output_rank - 2 {
                on_axis(left[i], i)
            } else {
                tensor_extents(shape, padded)[i]
            },
    )
}

/// Key of the part of the output that a partial result belongs to.
pub open spec fn footprint_key(extents: Seq<ShardExtent>) -> Seq<u32> {
    Seq::new(
        2 * extents.len(),
        |i: int|
            if i % 2 == 0 {
                extents[i / 2].start
            } else {
                extents[i / 2].physical_end
            },
    )
}

/// The output shard can hold the partial result: on the tile, in the same
/// order and memory, and around it.
pub open spec fn holds_partial(
    output: ShardModel,
    tile: u16,
    partial: TypeModel,
    extents: Seq<ShardExtent>,
) -> bool {
    &&& output.tile == tile
    &&& output.tensor_type.format.layout.order == partial.format.layout.order
    &&& output.tensor_type.format.layout.memory_class == partial.format.layout.memory_class
    &&& forall|i: int|
        0 <= i < output.extents.len() && i < extents.len() ==> (#[trigger] output.extents[i]).start
            <= extents[i].start && output.extents[i].logical_end >= extents[i].logical_end
            && output.extents[i].physical_end >= extents[i].physical_end
}

/// The first listed output from `k` on that can hold the partial result.
pub open spec fn direct_output_from(
    shards: Seq<ShardModel>,
    outputs: Seq<LowShardId>,
    tile: u16,
    partial: TypeModel,
    extents: Seq<ShardExtent>,
    k: int,
) -> Option<LowShardId>
    decreases outputs.len() - k,
{
    if k >= outputs.len() {
        None
    } else if outputs[k].0 < shards.len() && holds_partial(
        shards[outputs[k].0 as int],
        tile,
        partial,
        extents,
    ) {
        Some(outputs[k])
    } else {
        direct_output_from(shards, outputs, tile, partial, extents, k + 1)
    }
}

/// Memory for a partial result: the output itself where it can be, and else
/// new staging.
pub open spec fn partial_storage(
    s: StateModel,
    outputs: Seq<LowShardId>,
    tile: u16,
    partial: TypeModel,
    extents: Seq<ShardExtent>,
) -> StepWith<LowShardId> {
    match direct_output_from(s.shards, outputs, tile, partial, extents, 0) {
        Some(id) => Ok((s, id)),
        None => push_shard(
            s,
            ShardModel {
                id: LowShardId(0),
                tile,
                tensor_type: partial,
                extents,
                definition: ShardDefinition::Staging,
            },
        ),
    }
}

// ---------------------------------------------------------------- weights

/// The first staged weights for a tile and source, from position `i` on.
pub open spec fn staged_weights_from(
    weights: Seq<StagedWeights>,
    tile: u16,
    source: LowShardId,
    i: int,
) -> Option<LowShardId>
    decreases weights.len() - i,
{
    if i >= weights.len() {
        None
    } else if weights[i].0 == (tile, source) {
        Some(weights[i].1)
    } else {
        staged_weights_from(weights, tile, source, i + 1)
    }
}

/// A block of a right operand: inner elements and columns.
pub open spec fn weight_block(
    shards: Seq<ShardModel>,
    id: LowShardId,
    axes: ProductAxes,
    inner: (u32, u32),
    columns: (u32, u32),
) -> Result<ViewModel, LowLoweringError> {
    narrow_view(
        shards,
        id,
        seq![(axes.right_inner, inner.0, inner.1), (axes.right_column, columns.0, columns.1)],
    )
}

/// Interleaved memory for all weights that a left shard needs.
pub open spec fn weight_staging(
    source: ShardModel,
    axes: ProductAxes,
    inner: ShardExtent,
    tile: u16,
) -> ShardModel {
    let own = source.extents[axes.right_inner as int];
    ShardModel {
        id: LowShardId(0),
        tile,
        tensor_type: in_interleaved(source.tensor_type),
        extents: source.extents.update(
            axes.right_inner as int,
            ShardExtent {
                axis: own.axis,
                start: inner.start,
                logical_end: inner.logical_end,
                physical_end: inner.physical_end,
            },
        ),
        definition: ShardDefinition::ExchangeStaging,
    }
}

/// The shard that holds a block of the right operand.
pub open spec fn weight_source(
    shards: Seq<ShardModel>,
    rights: Seq<LowShardId>,
    axes: ProductAxes,
    inner: (u32, u32),
    columns: (u32, u32),
) -> Result<LowShardId, LowLoweringError> {
    match first_block_from(
        shards,
        rights,
        axes.right_column as int,
        axes.right_inner as int,
        columns,
        inner,
        0,
    ) {
        Some(id) => Ok(id),
        None => Err(LowLoweringError::InvalidOperatorPlan),
    }
}

/// The end of the first panel of a range.
pub open spec fn first_panel_end(inner: ShardExtent, panel: u32) -> u32 {
    if inner.start + panel > u32::MAX {
        inner.physical_end
    } else {
        min((inner.start + panel) as u32, inner.physical_end)
    }
}

/// Staging for weights that are not all resident in place. Weights that come
/// from the same shard share it.
pub open spec fn weights_storage(
    s: StateModel,
    plan: ReductionPlan,
    rights: Seq<LowShardId>,
    inner: ShardExtent,
    tile: u16,
    columns: (u32, u32),
    w: PartialModel,
) -> StepWith<(PartialModel, Option<LowShardId>)> {
    match weight_source(
        s.shards,
        rights,
        plan.axes,
        (inner.start, first_panel_end(inner, plan.panel_block)),
        columns,
    ) {
        Err(e) => Err(e),
        Ok(first) => {
            let source = s.shards[first.0 as int];
            let held = source.extents[plan.axes.right_inner as int];
            if source.tile == tile && held.start <= inner.start && held.physical_end
                >= inner.physical_end && !plan.stage_local {
                Ok((s, (w, None)))
            } else {
                match staged_weights_from(w.weights, tile, first, 0) {
                    Some(id) => Ok((s, (w, Some(id)))),
                    None => match push_shard(
                        s,
                        weight_staging(source, plan.axes, inner, tile),
                    ) {
                        Err(e) => Err(e),
                        Ok((next, id)) => Ok(
                            (
                                next,
                                (
                                    PartialModel {
                                        weights: w.weights.push(((tile, first), id)),
                                        ..w
                                    },
                                    Some(id),
                                ),
                            ),
                        ),
                    },
                }
            }
        },
    }
}

/// The part of the staging that a block of weights takes.
pub open spec fn staged_block(
    shards: Seq<ShardModel>,
    weights: Option<LowShardId>,
    axes: ProductAxes,
    inner: (u32, u32),
    columns: (u32, u32),
) -> Result<ViewModel, LowLoweringError> {
    match weights {
        None => Err(LowLoweringError::InvalidOperatorPlan),
        Some(id) => weight_block(shards, id, axes, inner, columns),
    }
}

/// One panel of weights, and whether it is used in place.
pub type PanelSource = (ViewModel, bool);

/// Brings one panel of weights to a tile: in place where it is resident, and
/// else into staging, by a copy or a transfer.
pub open spec fn bring_panel<M: Target>(
    target: &M,
    shards: Seq<ShardModel>,
    plan: ReductionPlan,
    rights: Seq<LowShardId>,
    weights: Option<LowShardId>,
    tile: u16,
    inner: (u32, u32),
    columns: (u32, u32),
    w: PartialModel,
) -> Result<(PartialModel, PanelSource), LowLoweringError> {
    match weight_source(shards, rights, plan.axes, inner, columns) {
        Err(e) => Err(e),
        Ok(source) => match weight_block(shards, source, plan.axes, inner, columns) {
            Err(e) => Err(e),
            Ok(view) => if resides(shards, source, tile) && !plan.stage_local {
                Ok((w, (view, true)))
            } else {
                match staged_block(shards, weights, plan.axes, inner, columns) {
                    Err(e) => Err(e),
                    Ok(into) => if resides(shards, source, tile) {
                        match with_view_copies(
                            target,
                            shards,
                            view,
                            into,
                            tile,
                            ExchangeOrder::Semantic,
                            w.copies,
                        ) {
                            Err(e) => Err(e),
                            Ok(copies) => Ok((PartialModel { copies, ..w }, (view, false))),
                        }
                    } else {
                        Ok(
                            (
                                PartialModel {
                                    transfers: add_transfer(w.transfers, view, into),
                                    ..w
                                },
                                (view, false),
                            ),
                        )
                    },
                }
            },
        },
    }
}

/// `done` followed by the panels of weights from `start` on up to `end`.
pub open spec fn bring_panels_from<M: Target>(
    target: &M,
    shards: Seq<ShardModel>,
    plan: ReductionPlan,
    rights: Seq<LowShardId>,
    weights: Option<LowShardId>,
    tile: u16,
    start: int,
    end: int,
    columns: (u32, u32),
    w: PartialModel,
    done: Seq<PanelSource>,
) -> Result<(PartialModel, Seq<PanelSource>), LowLoweringError>
    decreases
            (if start < end {
                end - start
            } else {
                0
            }),
{
    if start >= end {
        Ok((w, done))
    } else if plan.panel_block == 0 || start + plan.panel_block > u32::MAX {
        Err(LowLoweringError::InvalidOperatorPlan)
    } else {
        match bring_panel(
            target,
            shards,
            plan,
            rights,
            weights,
            tile,
            (start as u32, (start + plan.panel_block) as u32),
            columns,
            w,
        ) {
            Err(e) => Err(e),
            Ok((more, source)) => bring_panels_from(
                target,
                shards,
                plan,
                rights,
                weights,
                tile,
                start + plan.panel_block,
                end,
                columns,
                more,
                done.push(source),
            ),
        }
    }
}

// ---------------------------------------------------------------- runs

/// A product kernel for a block of the given size, that loads its weights from
/// the given memory.
pub open spec fn sized_kernel(
    kernel: KernelModel,
    memory_class: MemoryClass,
    block: u32,
    columns: u32,
) -> KernelModel {
    match kernel {
        KernelSpec::Gemm { multiply, accumulate, mode, .. } => KernelSpec::Gemm {
            multiply,
            accumulate,
            mode,
            weights: if memory_class == MemoryClass::Ipu21Standard {
                GemmWeightLoad::Standard
            } else {
                GemmWeightLoad::Interleaved
            },
            inner_block: block,
            output_columns: columns,
        },
        _ => kernel,
    }
}

/// Adds a run that contributes a block of the inner axis to a partial result.
pub open spec fn add_partial_run(
    shards: Seq<ShardModel>,
    plan: ReductionPlan,
    kernels: GemmKernels,
    initial: bool,
    left: LowShardId,
    weights: ViewModel,
    partial: ViewModel,
    tile: u16,
    inner: (u32, u32),
    columns: (u32, u32),
    w: PartialModel,
) -> Result<PartialModel, LowLoweringError> {
    match narrow_view(shards, left, seq![(plan.axes.left_inner, inner.0, inner.1)]) {
        Err(e) => Err(e),
        Ok(left_view) => match shard_of(shards, weights.shard) {
            Err(e) => Err(e),
            Ok(held) => Ok(
                PartialModel {
                    runs: w.runs.push(
                        (
                            tile,
                            operator_run(
                                WorkProvenance {
                                    operation: plan.source,
                                    value: Some(plan.output),
                                    reason: WorkReason::OperatorKernel,
                                },
                                sized_kernel(
                                    if initial {
                                        kernels.initialize
                                    } else {
                                        kernels.accumulate
                                    },
                                    held.tensor_type.format.layout.memory_class,
                                    (inner.1 - inner.0) as u32,
                                    (columns.1 - columns.0) as u32,
                                ),
                                seq![seq![left_view], seq![weights]],
                                partial,
                                kernels.requirements,
                            ),
                        ),
                    ),
                    ..w
                },
            ),
        },
    }
}

/// Some panel is used in place.
pub open spec fn any_direct(sources: Seq<PanelSource>) -> bool {
    exists|i: int| 0 <= i < sources.len() && (#[trigger] sources[i]).1
}

/// Adds a run for each panel from `p` on.
pub open spec fn add_panel_runs_from(
    shards: Seq<ShardModel>,
    plan: ReductionPlan,
    kernels: GemmKernels,
    first_block: bool,
    left: LowShardId,
    weights: Option<LowShardId>,
    sources: Seq<PanelSource>,
    partial: ViewModel,
    tile: u16,
    start: int,
    columns: (u32, u32),
    p: int,
    w: PartialModel,
) -> Result<PartialModel, LowLoweringError>
    decreases sources.len() - p,
{
    if p >= sources.len() {
        Ok(w)
    } else {
        let inner = (
            (start + p * plan.panel_block) as u32,
            (start + (p + 1) * plan.panel_block) as u32,
        );
        match (if sources[p].1 {
            Ok(sources[p].0)
        } else {
            staged_block(shards, weights, plan.axes, inner, columns)
        }) {
            Err(e) => Err(e),
            Ok(view) => match add_partial_run(
                shards,
                plan,
                kernels,
                first_block && p == 0,
                left,
                view,
                partial,
                tile,
                inner,
                columns,
                w,
            ) {
                Err(e) => Err(e),
                Ok(more) => add_panel_runs_from(
                    shards,
                    plan,
                    kernels,
                    first_block,
                    left,
                    weights,
                    sources,
                    partial,
                    tile,
                    start,
                    columns,
                    p + 1,
                    more,
                ),
            },
        }
    }
}

/// Adds the runs for one block of the inner axis: panel by panel where only
/// some panels are used in place, and else one run.
pub open spec fn add_block_runs(
    shards: Seq<ShardModel>,
    plan: ReductionPlan,
    kernels: GemmKernels,
    first_block: bool,
    left: LowShardId,
    weights: Option<LowShardId>,
    sources: Seq<PanelSource>,
    partial: ViewModel,
    tile: u16,
    inner: (u32, u32),
    columns: (u32, u32),
    w: PartialModel,
) -> Result<PartialModel, LowLoweringError> {
    if sources.len() > 1 && any_direct(sources) {
        add_panel_runs_from(
            shards,
            plan,
            kernels,
            first_block,
            left,
            weights,
            sources,
            partial,
            tile,
            inner.0 as int,
            columns,
            0,
            w,
        )
    } else {
        match (if sources.len() == 1 && sources[0].1 {
            Ok(sources[0].0)
        } else {
            staged_block(shards, weights, plan.axes, inner, columns)
        }) {
            Err(e) => Err(e),
            Ok(view) => add_partial_run(
                shards,
                plan,
                kernels,
                first_block,
                left,
                view,
                partial,
                tile,
                inner,
                columns,
                w,
            ),
        }
    }
}

/// Adds the blocks of the inner axis from `start` on.
pub open spec fn add_blocks_from<M: Target>(
    target: &M,
    shards: Seq<ShardModel>,
    plan: ReductionPlan,
    kernels: GemmKernels,
    rights: Seq<LowShardId>,
    left: LowShardId,
    weights: Option<LowShardId>,
    partial: ViewModel,
    tile: u16,
    inner: ShardExtent,
    columns: (u32, u32),
    start: int,
    w: PartialModel,
) -> Result<PartialModel, LowLoweringError>
    decreases
            (if start < inner.physical_end {
                inner.physical_end - start
            } else {
                0
            }),
{
    if start >= inner.physical_end || plan.inner_block == 0 {
        Ok(w)
    } else {
        let end = start + plan.inner_block;
        match bring_panels_from(
            target,
            shards,
            plan,
            rights,
            weights,
            tile,
            start,
            end,
            columns,
            w,
            Seq::empty(),
        ) {
            Err(e) => Err(e),
            Ok((more, sources)) => match add_block_runs(
                shards,
                plan,
                kernels,
                start == inner.start,
                left,
                weights,
                sources,
                partial,
                tile,
                (start as u32, end as u32),
                columns,
                more,
            ) {
                Err(e) => Err(e),
                Ok(most) => add_blocks_from(
                    target,
                    shards,
                    plan,
                    kernels,
                    rights,
                    left,
                    weights,
                    partial,
                    tile,
                    inner,
                    columns,
                    end,
                    most,
                ),
            },
        }
    }
}

/// A partial result is recorded under the part of the output it belongs to.
pub open spec fn record_partial(w: PartialModel, tile: u16, partial: ViewModel) -> PartialModel {
    PartialModel {
        partials: groups_insert(w.partials, footprint_key(partial.extents), (tile, partial)),
        ..w
    }
}

/// Adds the contribution of one left shard to its partial result.
pub open spec fn contribute<M: Target>(
    target: &M,
    s: StateModel,
    plan: ReductionPlan,
    kernels: GemmKernels,
    rights: Seq<LowShardId>,
    outputs: Seq<LowShardId>,
    partial: TypeModel,
    left: ShardModel,
    resident: LowShardId,
    columns: Columns,
    w: PartialModel,
) -> StepWith<PartialModel> {
    match target.spec_resolve(partial.format.layout, partial.shape) {
        Err(e) => Err(LowLoweringError::Layout(e)),
        Ok(resolved) => if partial.shape.len() != plan.axes.output_rank
            || resolved.padded_shape.len() != partial.shape.len() || plan.axes.output_rank
            > u16::MAX || (plan.orientation == GemmOrientation::Normal && left.extents.len()
            < plan.axes.output_rank - 2) {
            Err(LowLoweringError::InvalidOperatorPlan)
        } else {
            let extents = partial_extents(
                plan,
                left.extents,
                partial.shape,
                resolved.padded_shape,
                columns,
            );
            let inner = left.extents[plan.axes.left_inner as int];
            match partial_storage(s, outputs, left.tile, partial, extents) {
                Err(e) => Err(e),
                Ok((a, id)) => {
                    let view = ViewModel { shard: id, extents };
                    match weights_storage(
                        a,
                        plan,
                        rights,
                        inner,
                        left.tile,
                        (columns.0, columns.2),
                        record_partial(w, left.tile, view),
                    ) {
                        Err(e) => Err(e),
                        Ok((b, (more, weights))) => match add_blocks_from(
                            target,
                            b.shards,
                            plan,
                            kernels,
                            rights,
                            resident,
                            weights,
                            view,
                            left.tile,
                            inner,
                            (columns.0, columns.2),
                            inner.start as int,
                            more,
                        ) {
                            Err(e) => Err(e),
                            Ok(most) => Ok((b, most)),
                        },
                    }
                },
            }
        },
    }
}

/// Makes a left shard resident, and adds its contribution where it computes
/// the columns.
pub open spec fn add_left<M: Target>(
    target: &M,
    s: StateModel,
    plan: ReductionPlan,
    kernels: GemmKernels,
    rights: Seq<LowShardId>,
    outputs: Seq<LowShardId>,
    partial: TypeModel,
    left: LowShardId,
    computes: bool,
    columns: Columns,
    w: PartialModel,
) -> StepWith<PartialModel> {
    match shard_of(s.shards, left) {
        Err(e) => Err(e),
        Ok(shard) => match resident_left(target, s, plan, left, w) {
            Err(e) => Err(e),
            Ok((a, (more, view))) => if plan.axes.left_inner >= shard.extents.len()
                || plan.axes.left_row >= shard.extents.len() {
                Err(LowLoweringError::InvalidOperatorPlan)
            } else {
                let inner = shard.extents[plan.axes.left_inner as int];
                if inner.physical_end < inner.start || (inner.physical_end - inner.start) % (
                plan.inner_block as int) != 0 {
                    Err(LowLoweringError::InvalidOperatorPlan)
                } else if !computes {
                    Ok((a, more))
                } else {
                    contribute(
                        target,
                        a,
                        plan,
                        kernels,
                        rights,
                        outputs,
                        partial,
                        shard,
                        view.shard,
                        columns,
                        more,
                    )
                }
            },
        },
    }
}

/// Adds the left shards from `k` on for one partition of the columns.
pub open spec fn add_lefts_from<M: Target>(
    target: &M,
    s: StateModel,
    plan: ReductionPlan,
    kernels: GemmKernels,
    lefts: Seq<LowShardId>,
    replicas: Seq<u32>,
    rights: Seq<LowShardId>,
    outputs: Seq<LowShardId>,
    partial: TypeModel,
    partition: int,
    columns: Columns,
    k: int,
    w: PartialModel,
) -> StepWith<PartialModel>
    decreases lefts.len() - k,
{
    if k >= lefts.len() {
        Ok((s, w))
    } else {
        match add_left(
            target,
            s,
            plan,
            kernels,
            rights,
            outputs,
            partial,
            lefts[k],
            replicas[k] == partition,
            columns,
            w,
        ) {
            Err(e) => Err(e),
            Ok((next, more)) => add_lefts_from(
                target,
                next,
                plan,
                kernels,
                lefts,
                replicas,
                rights,
                outputs,
                partial,
                partition,
                columns,
                k + 1,
                more,
            ),
        }
    }
}

/// A partition of the columns that one product can compute.
pub open spec fn computable(columns: Columns, column_block: u32) -> bool {
    &&& columns.0 < columns.2
    &&& columns.2 - columns.0 <= column_block
    &&& (columns.2 - columns.0) % (AMP_COLUMN_MICRO as int) == 0
}

/// Adds the partitions of the columns from `p` on.
pub open spec fn add_partitions_from<M: Target>(
    target: &M,
    s: StateModel,
    plan: ReductionPlan,
    kernels: GemmKernels,
    lefts: Seq<LowShardId>,
    replicas: Seq<u32>,
    rights: Seq<LowShardId>,
    outputs: Seq<LowShardId>,
    partial: TypeModel,
    partitions: Seq<Columns>,
    p: int,
    w: PartialModel,
) -> StepWith<PartialModel>
    decreases partitions.len() - p,
{
    if p >= partitions.len() {
        Ok((s, w))
    } else if !computable(partitions[p], plan.column_block) {
        Err(LowLoweringError::InvalidOperatorPlan)
    } else {
        match add_lefts_from(
            target,
            s,
            plan,
            kernels,
            lefts,
            replicas,
            rights,
            outputs,
            partial,
            p,
            partitions[p],
            0,
            w,
        ) {
            Err(e) => Err(e),
            Ok((next, more)) => add_partitions_from(
                target,
                next,
                plan,
                kernels,
                lefts,
                replicas,
                rights,
                outputs,
                partial,
                partitions,
                p + 1,
                more,
            ),
        }
    }
}

/// No work.
pub open spec fn no_partials() -> PartialModel {
    PartialModel {
        transfers: Seq::empty(),
        copies: Seq::empty(),
        runs: Seq::empty(),
        partials: Seq::empty(),
        lefts: Seq::empty(),
        weights: Seq::empty(),
    }
}

// ---------------------------------------------------------------- carrying out

/// Every recorded part of the output has a partial result, and all transfers
/// have a destination.
pub open spec fn well_recorded(w: PartialModel) -> bool {
    &&& transfers_nonempty(w.transfers)
    &&& forall|g: int| 0 <= g < w.partials.len() ==> (#[trigger] w.partials[g]).items.len() > 0
}

/// `r` hands back the expected value and work, or is the expected error.
pub open spec fn gave_partial<T: View>(
    r: LowLoweringResult<T>,
    after: StateModel,
    work: PartialModel,
    step: StepWith<(PartialModel, T::V)>,
) -> bool {
    match r {
        Ok(value) => step == Ok::<(StateModel, (PartialModel, T::V)), LowLoweringError>(
            (after, (work, value@)),
        ),
        Err(e) => step == Err::<(StateModel, (PartialModel, T::V)), LowLoweringError>(e),
    }
}

/// `r` leaves the expected work, or is the expected error.
pub open spec fn worked(
    r: LowLoweringResult<()>,
    after: StateModel,
    work: PartialModel,
    step: StepWith<PartialModel>,
) -> bool {
    match r {
        Ok(_) => step == Ok::<(StateModel, PartialModel), LowLoweringError>((after, work)),
        Err(e) => step == Err::<(StateModel, PartialModel), LowLoweringError>(e),
    }
}

/// `r` leaves the expected work, or is the expected error.
pub open spec fn added(
    r: LowLoweringResult<()>,
    work: PartialModel,
    expected: Result<PartialModel, LowLoweringError>,
) -> bool {
    match r {
        Ok(_) => expected == Ok::<PartialModel, LowLoweringError>(work),
        Err(e) => expected == Err::<PartialModel, LowLoweringError>(e),
    }
}

fn find_resident_left(lefts: &Vec<(LowShardId, ShardView)>, id: LowShardId) -> (r: Option<
    ShardView,
>)
    ensures
        match r {
            Some(view) => resident_left_from(deep(lefts@), id, 0) == Some(view@),
            None => resident_left_from(deep(lefts@), id, 0) is None,
        },
{
    broadcast use group_deep;

    let ghost model = deep(lefts@);
    let mut i: usize = 0;
    while i < lefts.len()
        invariant
            i <= lefts@.len(),
            resident_left_from(model, id, 0) == resident_left_from(model, id, i as int),
        decreases lefts@.len() - i,
    {
        assert(model[i as int] == lefts@[i as int]@);
        if lefts[i].0 == id {
            return Some(lefts[i].1.duplicate());
        }
        i += 1;
    }
    None
}

fn find_staged_weights(weights: &Vec<StagedWeights>, tile: u16, source: LowShardId) -> (r: Option<
    LowShardId,
>)
    ensures
        r == staged_weights_from(weights@, tile, source, 0),
{
    let mut i: usize = 0;
    while i < weights.len()
        invariant
            i <= weights@.len(),
            staged_weights_from(weights@, tile, source, 0) == staged_weights_from(
                weights@,
                tile,
                source,
                i as int,
            ),
        decreases weights@.len() - i,
    {
        let ((staged_tile, staged_source), id) = weights[i];
        if staged_tile == tile && staged_source == source {
            return Some(id);
        }
        i += 1;
    }
    None
}

fn ranges_of(extents: &Vec<ShardExtent>) -> (r: Vec<(usize, u32, u32)>)
    ensures
        r@ == whole_ranges(extents@),
{
    let mut ranges: Vec<(usize, u32, u32)> = Vec::new();
    let mut i: usize = 0;
    while i < extents.len()
        invariant
            i <= extents@.len(),
            ranges@.len() == i,
            forall|k: int| 0 <= k < i ==> ranges@[k] == whole_ranges(extents@)[k],
        decreases extents@.len() - i,
    {
        ranges.push((i, extents[i].start, extents[i].physical_end));
        i += 1;
    }
    assert(ranges@ =~= whole_ranges(extents@));
    ranges
}

fn key_of_footprint(extents: &Vec<ShardExtent>) -> (r: Vec<u32>)
    ensures
        r@ == footprint_key(extents@),
{
    let mut key: Vec<u32> = Vec::new();
    let mut i: usize = 0;
    while i < extents.len()
        invariant
            i <= extents@.len(),
            key@.len() == 2 * i,
            forall|k: int| 0 <= k < 2 * i ==> key@[k] == footprint_key(extents@)[k],
        decreases extents@.len() - i,
    {
        key.push(extents[i].start);
        key.push(extents[i].physical_end);
        i += 1;
    }
    assert(key@ =~= footprint_key(extents@));
    key
}

fn new_partial_extents(
    plan: ReductionPlan,
    left: &Vec<ShardExtent>,
    shape: &Vec<u32>,
    padded: &Vec<u32>,
    columns: Columns,
) -> (r: Vec<ShardExtent>)
    requires
        shape@.len() == plan.axes.output_rank,
        padded@.len() == shape@.len(),
        plan.axes.output_rank <= u16::MAX,
        plan.axes.left_row < left@.len(),
        plan.orientation == GemmOrientation::Normal ==> left@.len() >= plan.axes.output_rank - 2,
    ensures
        r@ == partial_extents(plan, left@, shape@, padded@, columns),
{
    let mut extents: Vec<ShardExtent> = Vec::new();
    let mut i: usize = 0;
    while i < shape.len()
        invariant
            i <= shape@.len(),
            extents@.len() == i,
            forall|k: int|
                0 <= k < i ==> extents@[k] == partial_extents(
                    plan,
                    left@,
                    shape@,
                    padded@,
                    columns,
                )[k],
        decreases shape@.len() - i,
    {
        let axis: u16 = i as u16;
        let extent = if i == plan.axes.output_column {
            ShardExtent {
                axis,
                start: columns.0,
                logical_end: columns.1,
                physical_end: columns.2,
            }
        } else if i == plan.axes.output_row {
            let own: ShardExtent = left[plan.axes.left_row];
            ShardExtent {
                axis,
                start: own.start,
                logical_end: own.logical_end,
                physical_end: own.physical_end,
            }
        } else if plan.orientation == GemmOrientation::Normal && i + 2 < plan.axes.output_rank {
            let own: ShardExtent = left[i];
            ShardExtent {
                axis,
                start: own.start,
                logical_end: own.logical_end,
                physical_end: own.physical_end,
            }
        } else {
            ShardExtent { axis, start: 0, logical_end: shape[i], physical_end: padded[i] }
        };
        extents.push(extent);
        i += 1;
    }
    assert(extents@ =~= partial_extents(plan, left@, shape@, padded@, columns));
    extents
}

fn can_hold_partial(
    output: &LowShard,
    tile: u16,
    partial: &TensorType,
    extents: &Vec<ShardExtent>,
) -> (r: bool)
    ensures
        r == holds_partial(output@, tile, partial@, extents@),
{
    if output.tile != tile || output.tensor_type.format.layout.order
        != partial.format.layout.order || output.tensor_type.format.layout.memory_class
        != partial.format.layout.memory_class {
        return false;
    }
    let mut i: usize = 0;
    while i < output.extents.len() && i < extents.len()
        invariant
            i <= output.extents@.len(),
            i <= extents@.len(),
            forall|k: int|
                0 <= k < i ==> (#[trigger] output.extents@[k]).start <= extents@[k].start
                    && output.extents@[k].logical_end >= extents@[k].logical_end
                    && output.extents@[k].physical_end >= extents@[k].physical_end,
        decreases output.extents@.len() - i,
    {
        let owner: ShardExtent = output.extents[i];
        if owner.start > extents[i].start || owner.logical_end < extents[i].logical_end
            || owner.physical_end < extents[i].physical_end {
            assert(output@.extents[i as int] == owner);
            return false;
        }
        i += 1;
    }
    true
}

fn with_size(kernel: TileKernelSpec, memory_class: MemoryClass, block: u32, columns: u32) -> (r:
    TileKernelSpec)
    ensures
        r@ == sized_kernel(kernel@, memory_class, block, columns),
{
    match kernel {
        KernelSpec::Gemm { multiply, accumulate, mode, .. } => KernelSpec::Gemm {
            multiply,
            accumulate,
            mode,
            weights: match memory_class {
                MemoryClass::Ipu21Standard => GemmWeightLoad::Standard,
                MemoryClass::Ipu21Interleaved => GemmWeightLoad::Interleaved,
            },
            inner_block: block,
            output_columns: columns,
        },
        other => other,
    }
}

fn is_any_direct(sources: &Vec<(ShardView, bool)>) -> (r: bool)
    ensures
        r == any_direct(deep(sources@)),
{
    broadcast use group_deep;

    let ghost model = deep(sources@);
    let mut i: usize = 0;
    while i < sources.len()
        invariant
            i <= sources@.len(),
            forall|k: int| 0 <= k < i ==> !(#[trigger] model[k]).1,
        decreases sources@.len() - i,
    {
        assert(model[i as int] == sources@[i as int]@);
        if sources[i].1 {
            return true;
        }
        i += 1;
    }
    false
}

impl LoweringState {
    fn resident_left<M: Target>(
        &mut self,
        target: &M,
        plan: ReductionPlan,
        id: LowShardId,
        w: &mut PartialWork,
    ) -> (r: LowLoweringResult<ShardView>)
        requires
            id.0 < old(self)@.shards.len(),
            well_recorded(old(w)@),
        ensures
            gave_partial(
                r,
                final(self)@,
                final(w)@,
                resident_left(target, old(self)@, plan, id, old(w)@),
            ),
            well_recorded(final(w)@),
    {
        broadcast use group_deep;

        match find_resident_left(&w.lefts, id) {
            Some(view) => {
                return Ok(view);
            },
            None => {},
        }
        let shard = &self.shards[id.0 as usize];
        assert(shard@ == self@.shards[id.0 as int]);
        let tile: u16 = shard.tile;
        let ranges = ranges_of(&shard.extents);
        let view = self.dispatch_input_view(
            target,
            plan.left,
            tile,
            &ranges,
            &mut w.transfers,
            &mut w.copies,
        )?;
        if !plan.slices && view.shard != id {
            return Err(LowLoweringError::InvalidOperatorPlan);
        }
        w.lefts.push((id, view.duplicate()));
        Ok(view)
    }

    fn partial_storage(
        &mut self,
        outputs: &Vec<LowShardId>,
        tile: u16,
        partial: &TensorType,
        extents: &Vec<ShardExtent>,
    ) -> (r: LowLoweringResult<LowShardId>)
        ensures
            gave(
                r,
                final(self)@,
                partial_storage(old(self)@, outputs@, tile, partial@, extents@),
            ),
    {
        broadcast use group_deep;

        let mut k: usize = 0;
        while k < outputs.len()
            invariant
                k <= outputs@.len(),
                direct_output_from(self@.shards, outputs@, tile, partial@, extents@, 0)
                    == direct_output_from(
                    self@.shards,
                    outputs@,
                    tile,
                    partial@,
                    extents@,
                    k as int,
                ),
            decreases outputs@.len() - k,
        {
            let id = outputs[k];
            if (id.0 as usize) < self.shards.len() && can_hold_partial(
                &self.shards[id.0 as usize],
                tile,
                partial,
                extents,
            ) {
                return Ok(id);
            }
            k += 1;
        }
        self.push_shard(
            LowShard {
                id: LowShardId(0),
                tile,
                tensor_type: partial.duplicate(),
                extents: copy_all(extents.as_slice()),
                definition: ShardDefinition::Staging,
            },
        )
    }

    fn weight_block(
        &self,
        id: LowShardId,
        axes: ProductAxes,
        inner: (u32, u32),
        columns: (u32, u32),
    ) -> (r: LowLoweringResult<ShardView>)
        ensures
            found(r, weight_block(self@.shards, id, axes, inner, columns)),
    {
        let mut ranges: Vec<(usize, u32, u32)> = Vec::new();
        ranges.push((axes.right_inner, inner.0, inner.1));
        ranges.push((axes.right_column, columns.0, columns.1));
        assert(ranges@ =~= seq![
            (axes.right_inner, inner.0, inner.1),
            (axes.right_column, columns.0, columns.1),
        ]);
        self.narrow_view(id, ranges.as_slice())
    }

    fn staged_block(
        &self,
        weights: Option<LowShardId>,
        axes: ProductAxes,
        inner: (u32, u32),
        columns: (u32, u32),
    ) -> (r: LowLoweringResult<ShardView>)
        ensures
            found(r, staged_block(self@.shards, weights, axes, inner, columns)),
    {
        match weights {
            None => Err(LowLoweringError::InvalidOperatorPlan),
            Some(id) => self.weight_block(id, axes, inner, columns),
        }
    }

    fn weight_source(
        &self,
        rights: &Vec<LowShardId>,
        axes: ProductAxes,
        inner: (u32, u32),
        columns: (u32, u32),
    ) -> (r: LowLoweringResult<LowShardId>)
        ensures
            r == weight_source(self@.shards, rights@, axes, inner, columns),
            r matches Ok(id) ==> id.0 < self@.shards.len() && axes.right_inner
                < self@.shards[id.0 as int].extents.len(),
    {
        proof {
            lemma_first_block(
                self@.shards,
                rights@,
                axes.right_column as int,
                axes.right_inner as int,
                columns,
                inner,
                0,
            );
        }
        match self.first_matrix_shard_for_block(
            rights,
            axes.right_column,
            axes.right_inner,
            columns,
            inner,
        ) {
            Some(id) => Ok(id),
            None => Err(LowLoweringError::InvalidOperatorPlan),
        }
    }

    fn weights_storage(
        &mut self,
        plan: ReductionPlan,
        rights: &Vec<LowShardId>,
        inner: ShardExtent,
        tile: u16,
        columns: (u32, u32),
        w: &mut PartialWork,
    ) -> (r: LowLoweringResult<Option<LowShardId>>)
        requires
            well_recorded(old(w)@),
        ensures
            match r {
                Ok(id) => weights_storage(
                    old(self)@,
                    plan,
                    rights@,
                    inner,
                    tile,
                    columns,
                    old(w)@,
                ) == Ok::<(StateModel, (PartialModel, Option<LowShardId>)), LowLoweringError>(
                    (final(self)@, (final(w)@, id)),
                ),
                Err(e) => weights_storage(
                    old(self)@,
                    plan,
                    rights@,
                    inner,
                    tile,
                    columns,
                    old(w)@,
                ) == Err::<(StateModel, (PartialModel, Option<LowShardId>)), LowLoweringError>(e),
            },
            well_recorded(final(w)@),
    {
        broadcast use group_deep;

        let end: u32 = match inner.start.checked_add(plan.panel_block) {
            Some(end) => min_u32(end, inner.physical_end),
            None => inner.physical_end,
        };
        let first = self.weight_source(rights, plan.axes, (inner.start, end), columns)?;
        let source = &self.shards[first.0 as usize];
        assert(source@ == self@.shards[first.0 as int]);
        let held: ShardExtent = source.extents[plan.axes.right_inner];
        if source.tile == tile && held.start <= inner.start && held.physical_end
            >= inner.physical_end && !plan.stage_local {
            return Ok(None);
        }
        match find_staged_weights(&w.weights, tile, first) {
            Some(id) => {
                return Ok(Some(id));
            },
            None => {},
        }
        let mut tensor_type = source.tensor_type.duplicate();
        tensor_type.format.layout.memory_class = MemoryClass::Ipu21Interleaved;
        let mut extents = copy_all(source.extents.as_slice());
        extents.set(
            plan.axes.right_inner,
            ShardExtent {
                axis: held.axis,
                start: inner.start,
                logical_end: inner.logical_end,
                physical_end: inner.physical_end,
            },
        );
        let staging = LowShard {
            id: LowShardId(0),
            tile,
            tensor_type,
            extents,
            definition: ShardDefinition::ExchangeStaging,
        };
        assert(staging@ == weight_staging(source@, plan.axes, inner, tile));
        let id = self.push_shard(staging)?;
        w.weights.push(((tile, first), id));
        Ok(Some(id))
    }

    fn bring_panel<M: Target>(
        &self,
        target: &M,
        plan: ReductionPlan,
        rights: &Vec<LowShardId>,
        weights: Option<LowShardId>,
        tile: u16,
        inner: (u32, u32),
        columns: (u32, u32),
        w: &mut PartialWork,
    ) -> (r: LowLoweringResult<(ShardView, bool)>)
        requires
            well_recorded(old(w)@),
        ensures
            match r {
                Ok(source) => bring_panel(
                    target,
                    self@.shards,
                    plan,
                    rights@,
                    weights,
                    tile,
                    inner,
                    columns,
                    old(w)@,
                ) == Ok::<(PartialModel, PanelSource), LowLoweringError>((final(w)@, source@)),
                Err(e) => bring_panel(
                    target,
                    self@.shards,
                    plan,
                    rights@,
                    weights,
                    tile,
                    inner,
                    columns,
                    old(w)@,
                ) == Err::<(PartialModel, PanelSource), LowLoweringError>(e),
            },
            well_recorded(final(w)@),
    {
        let source = self.weight_source(rights, plan.axes, inner, columns)?;
        let view = self.weight_block(source, plan.axes, inner, columns)?;
        let local = self.resides(source, tile);
        if local && !plan.stage_local {
            return Ok((view, true));
        }
        let into = self.staged_block(weights, plan.axes, inner, columns)?;
        if local {
            self.append_view_copies(
                target,
                &view,
                &into,
                tile,
                ExchangeOrder::Semantic,
                &mut w.copies,
            )?;
        } else {
            add_transfer_to(&mut w.transfers, view.duplicate(), into);
        }
        Ok((view, false))
    }

    fn bring_panels<M: Target>(
        &self,
        target: &M,
        plan: ReductionPlan,
        rights: &Vec<LowShardId>,
        weights: Option<LowShardId>,
        tile: u16,
        inner: (u32, u32),
        columns: (u32, u32),
        w: &mut PartialWork,
    ) -> (r: LowLoweringResult<Vec<(ShardView, bool)>>)
        requires
            well_recorded(old(w)@),
            inner.0 <= inner.1,
        ensures
            match r {
                Ok(sources) => bring_panels_from(
                    target,
                    self@.shards,
                    plan,
                    rights@,
                    weights,
                    tile,
                    inner.0 as int,
                    inner.1 as int,
                    columns,
                    old(w)@,
                    Seq::empty(),
                ) == Ok::<(PartialModel, Seq<PanelSource>), LowLoweringError>(
                    (final(w)@, deep(sources@)),
                ) && inner.0 + sources@.len() * plan.panel_block <= u32::MAX,
                Err(e) => bring_panels_from(
                    target,
                    self@.shards,
                    plan,
                    rights@,
                    weights,
                    tile,
                    inner.0 as int,
                    inner.1 as int,
                    columns,
                    old(w)@,
                    Seq::empty(),
                ) == Err::<(PartialModel, Seq<PanelSource>), LowLoweringError>(e),
            },
            well_recorded(final(w)@),
    {
        broadcast use group_deep;

        let ghost before = w@;
        let mut sources: Vec<(ShardView, bool)> = Vec::new();
        let mut start: u32 = inner.0;
        assert(0 * plan.panel_block == 0) by (nonlinear_arith);
        while start < inner.1
            invariant
                well_recorded(w@),
                start == inner.0 + sources@.len() * plan.panel_block,
                bring_panels_from(
                    target,
                    self@.shards,
                    plan,
                    rights@,
                    weights,
                    tile,
                    inner.0 as int,
                    inner.1 as int,
                    columns,
                    before,
                    Seq::empty(),
                ) == bring_panels_from(
                    target,
                    self@.shards,
                    plan,
                    rights@,
                    weights,
                    tile,
                    start as int,
                    inner.1 as int,
                    columns,
                    w@,
                    deep(sources@),
                ),
            decreases
                    (if start < inner.1 {
                        inner.1 - start
                    } else {
                        0
                    }),
        {
            if plan.panel_block == 0 {
                return Err(LowLoweringError::InvalidOperatorPlan);
            }
            let end: u32 = match start.checked_add(plan.panel_block) {
                Some(end) => end,
                None => {
                    return Err(LowLoweringError::InvalidOperatorPlan);
                },
            };
            let source = self.bring_panel(
                target,
                plan,
                rights,
                weights,
                tile,
                (start, end),
                columns,
                w,
            )?;
            let ghost count = sources@.len();
            sources.push(source);
            assert((count + 1) * plan.panel_block == count * plan.panel_block + plan.panel_block)
                by (nonlinear_arith);
            start = end;
        }
        Ok(sources)
    }

    fn add_partial_run(
        &self,
        plan: ReductionPlan,
        kernels: &GemmRuns,
        initial: bool,
        left: LowShardId,
        weights: ShardView,
        partial: &ShardView,
        tile: u16,
        inner: (u32, u32),
        columns: (u32, u32),
        w: &mut PartialWork,
    ) -> (r: LowLoweringResult<()>)
        requires
            inner.0 <= inner.1,
            columns.0 <= columns.1,
            well_recorded(old(w)@),
        ensures
            added(
                r,
                final(w)@,
                add_partial_run(
                    self@.shards,
                    plan,
                    kernels@,
                    initial,
                    left,
                    weights@,
                    partial@,
                    tile,
                    inner,
                    columns,
                    old(w)@,
                ),
            ),
            well_recorded(final(w)@),
    {
        broadcast use group_deep;

        let mut ranges: Vec<(usize, u32, u32)> = Vec::new();
        ranges.push((plan.axes.left_inner, inner.0, inner.1));
        assert(ranges@ =~= seq![(plan.axes.left_inner, inner.0, inner.1)]);
        let left_view = self.narrow_view(left, ranges.as_slice())?;
        let memory_class = self.shard(weights.shard)?.tensor_type.format.layout.memory_class;
        let kernel = if initial {
            kernels.initialize.duplicate()
        } else {
            kernels.accumulate.duplicate()
        };
        let run = new_operator_run(
            WorkProvenance {
                operation: plan.source,
                value: Some(plan.output),
                reason: WorkReason::OperatorKernel,
            },
            with_size(kernel, memory_class, inner.1 - inner.0, columns.1 - columns.0),
            two_operands(left_view, weights),
            partial.duplicate(),
            kernels.requirements,
        );
        w.runs.push((tile, run));
        Ok(())
    }

    fn add_block_runs(
        &self,
        plan: ReductionPlan,
        kernels: &GemmRuns,
        first_block: bool,
        left: LowShardId,
        weights: Option<LowShardId>,
        sources: &Vec<(ShardView, bool)>,
        partial: &ShardView,
        tile: u16,
        inner: (u32, u32),
        columns: (u32, u32),
        w: &mut PartialWork,
    ) -> (r: LowLoweringResult<()>)
        requires
            inner.0 <= inner.1,
            columns.0 <= columns.1,
            inner.0 + sources@.len() * plan.panel_block <= u32::MAX,
            well_recorded(old(w)@),
        ensures
            added(
                r,
                final(w)@,
                add_block_runs(
                    self@.shards,
                    plan,
                    kernels@,
                    first_block,
                    left,
                    weights,
                    deep(sources@),
                    partial@,
                    tile,
                    inner,
                    columns,
                    old(w)@,
                ),
            ),
            well_recorded(final(w)@),
    {
        broadcast use group_deep;

        let ghost model = deep(sources@);
        let ghost before = w@;
        if sources.len() > 1 && is_any_direct(sources) {
            let mut start: u32 = inner.0;
            let mut p: usize = 0;
            assert(0 * plan.panel_block == 0) by (nonlinear_arith);
            while p < sources.len()
                invariant
                    p <= sources@.len(),
                    well_recorded(w@),
                    start == inner.0 + p * plan.panel_block,
                    add_panel_runs_from(
                        self@.shards,
                        plan,
                        kernels@,
                        first_block,
                        left,
                        weights,
                        model,
                        partial@,
                        tile,
                        inner.0 as int,
                        columns,
                        0,
                        before,
                    ) == add_panel_runs_from(
                        self@.shards,
                        plan,
                        kernels@,
                        first_block,
                        left,
                        weights,
                        model,
                        partial@,
                        tile,
                        inner.0 as int,
                        columns,
                        p as int,
                        w@,
                    ),
                decreases sources@.len() - p,
            {
                assert(model[p as int] == sources@[p as int]@);
                assert((p + 1) * plan.panel_block == p * plan.panel_block + plan.panel_block)
                    by (nonlinear_arith);
                assert((p + 1) * plan.panel_block <= sources@.len() * plan.panel_block)
                    by (nonlinear_arith)
                    requires
                        p + 1 <= sources@.len(),
                ;
                let end: u32 = start + plan.panel_block;
                let view = if sources[p].1 {
                    sources[p].0.duplicate()
                } else {
                    self.staged_block(weights, plan.axes, (start, end), columns)?
                };
                self.add_partial_run(
                    plan,
                    kernels,
                    first_block && p == 0,
                    left,
                    view,
                    partial,
                    tile,
                    (start, end),
                    columns,
                    w,
                )?;
                start = end;
                p += 1;
            }
            Ok(())
        } else {
            let view = if sources.len() == 1 && sources[0].1 {
                assert(model[0] == sources@[0]@);
                sources[0].0.duplicate()
            } else {
                assert(sources@.len() >= 1 ==> model[0] == sources@[0]@);
                self.staged_block(weights, plan.axes, inner, columns)?
            };
            self.add_partial_run(
                plan,
                kernels,
                first_block,
                left,
                view,
                partial,
                tile,
                inner,
                columns,
                w,
            )
        }
    }

    fn add_blocks<M: Target>(
        &self,
        target: &M,
        plan: ReductionPlan,
        kernels: &GemmRuns,
        rights: &Vec<LowShardId>,
        left: LowShardId,
        weights: Option<LowShardId>,
        partial: &ShardView,
        tile: u16,
        inner: ShardExtent,
        columns: (u32, u32),
        w: &mut PartialWork,
    ) -> (r: LowLoweringResult<()>)
        requires
            plan.inner_block > 0,
            inner.start <= inner.physical_end,
            (inner.physical_end - inner.start) % (plan.inner_block as int) == 0,
            columns.0 <= columns.1,
            well_recorded(old(w)@),
        ensures
            added(
                r,
                final(w)@,
                add_blocks_from(
                    target,
                    self@.shards,
                    plan,
                    kernels@,
                    rights@,
                    left,
                    weights,
                    partial@,
                    tile,
                    inner,
                    columns,
                    inner.start as int,
                    old(w)@,
                ),
            ),
            well_recorded(final(w)@),
    {
        let ghost before = w@;
        let mut start: u32 = inner.start;
        while start < inner.physical_end
            invariant
                inner.start <= start <= inner.physical_end,
                (inner.physical_end - start) % (plan.inner_block as int) == 0,
                well_recorded(w@),
                add_blocks_from(
                    target,
                    self@.shards,
                    plan,
                    kernels@,
                    rights@,
                    left,
                    weights,
                    partial@,
                    tile,
                    inner,
                    columns,
                    inner.start as int,
                    before,
                ) == add_blocks_from(
                    target,
                    self@.shards,
                    plan,
                    kernels@,
                    rights@,
                    left,
                    weights,
                    partial@,
                    tile,
                    inner,
                    columns,
                    start as int,
                    w@,
                ),
            decreases inner.physical_end - start,
        {
            proof {
                let rest = inner.physical_end - start;
                let block = plan.inner_block as int;
                vstd::arithmetic::div_mod::lemma_fundamental_div_mod(rest, block);
                assert(rest >= block) by (nonlinear_arith)
                    requires
                        rest == block * (rest / block) + 0,
                        rest > 0,
                        block > 0,
                ;
                assert((rest - block) % block == 0) by {
                    vstd::arithmetic::div_mod::lemma_mod_sub_multiples_vanish(rest, block);
                }
            }
            let end: u32 = start + plan.inner_block;
            let sources = self.bring_panels(
                target,
                plan,
                rights,
                weights,
                tile,
                (start, end),
                columns,
                w,
            )?;
            self.add_block_runs(
                plan,
                kernels,
                start == inner.start,
                left,
                weights,
                &sources,
                partial,
                tile,
                (start, end),
                columns,
                w,
            )?;
            start = end;
        }
        Ok(())
    }

    fn contribute<M: Target>(
        &mut self,
        target: &M,
        plan: ReductionPlan,
        kernels: &GemmRuns,
        rights: &Vec<LowShardId>,
        outputs: &Vec<LowShardId>,
        partial: &TensorType,
        left: &LowShard,
        resident: LowShardId,
        columns: Columns,
        w: &mut PartialWork,
    ) -> (r: LowLoweringResult<()>)
        requires
            plan.inner_block > 0,
            plan.axes.left_inner < left@.extents.len(),
            plan.axes.left_row < left@.extents.len(),
            left@.extents[plan.axes.left_inner as int].start
                <= left@.extents[plan.axes.left_inner as int].physical_end,
            (left@.extents[plan.axes.left_inner as int].physical_end
                - left@.extents[plan.axes.left_inner as int].start) % (plan.inner_block as int)
                == 0,
            columns.0 <= columns.2,
            well_recorded(old(w)@),
        ensures
            worked(
                r,
                final(self)@,
                final(w)@,
                contribute(
                    target,
                    old(self)@,
                    plan,
                    kernels@,
                    rights@,
                    outputs@,
                    partial@,
                    left@,
                    resident,
                    columns,
                    old(w)@,
                ),
            ),
            well_recorded(final(w)@),
    {
        let resolved = match target.resolve(
            &partial.format.layout,
            partial.shape.0.as_slice(),
        ) {
            Ok(resolved) => resolved,
            Err(e) => {
                return Err(LowLoweringError::Layout(e));
            },
        };
        if partial.shape.0.len() != plan.axes.output_rank || resolved.padded_shape.len()
            != partial.shape.0.len() || plan.axes.output_rank > 0xffff || (plan.orientation
            == GemmOrientation::Normal && left.extents.len() < plan.axes.output_rank
            && left.extents.len() + 2 < plan.axes.output_rank) {
            return Err(LowLoweringError::InvalidOperatorPlan);
        }
        let extents = new_partial_extents(
            plan,
            &left.extents,
            &partial.shape.0,
            &resolved.padded_shape,
            columns,
        );
        let tile: u16 = left.tile;
        let inner: ShardExtent = left.extents[plan.axes.left_inner];
        let id = self.partial_storage(outputs, tile, partial, &extents)?;
        let view = ShardView { shard: id, extents };
        let key = key_of_footprint(&view.extents);
        proof {
            lemma_insert_nonempty(w@.partials, key@, (tile, view@));
        }
        let item = (tile, view.duplicate());
        assert(item@ == (tile, view@));
        w.partials.insert(key, item);
        let weights = self.weights_storage(
            plan,
            rights,
            inner,
            tile,
            (columns.0, columns.2),
            w,
        )?;
        self.add_blocks(
            target,
            plan,
            kernels,
            rights,
            resident,
            weights,
            &view,
            tile,
            inner,
            (columns.0, columns.2),
            w,
        )
    }

    fn add_left<M: Target>(
        &mut self,
        target: &M,
        plan: ReductionPlan,
        kernels: &GemmRuns,
        rights: &Vec<LowShardId>,
        outputs: &Vec<LowShardId>,
        partial: &TensorType,
        left: LowShardId,
        computes: bool,
        columns: Columns,
        w: &mut PartialWork,
    ) -> (r: LowLoweringResult<()>)
        requires
            plan.inner_block > 0,
            columns.0 <= columns.2,
            well_recorded(old(w)@),
        ensures
            worked(
                r,
                final(self)@,
                final(w)@,
                add_left(
                    target,
                    old(self)@,
                    plan,
                    kernels@,
                    rights@,
                    outputs@,
                    partial@,
                    left,
                    computes,
                    columns,
                    old(w)@,
                ),
            ),
            well_recorded(final(w)@),
    {
        let shard = self.shard(left)?.duplicate();
        let view = self.resident_left(target, plan, left, w)?;
        if plan.axes.left_inner >= shard.extents.len() || plan.axes.left_row
            >= shard.extents.len() {
            return Err(LowLoweringError::InvalidOperatorPlan);
        }
        let inner: ShardExtent = shard.extents[plan.axes.left_inner];
        if inner.physical_end < inner.start || (inner.physical_end - inner.start)
            % plan.inner_block != 0 {
            return Err(LowLoweringError::InvalidOperatorPlan);
        }
        if !computes {
            return Ok(());
        }
        self.contribute(
            target,
            plan,
            kernels,
            rights,
            outputs,
            partial,
            &shard,
            view.shard,
            columns,
            w,
        )
    }

    /// Adds all contributions to partial results.
    pub fn add_partitions<M: Target>(
        &mut self,
        target: &M,
        plan: ReductionPlan,
        kernels: &GemmRuns,
        lefts: &Vec<LowShardId>,
        replicas: &Vec<u32>,
        rights: &Vec<LowShardId>,
        outputs: &Vec<LowShardId>,
        partial: &TensorType,
        partitions: &Vec<Columns>,
        w: &mut PartialWork,
    ) -> (r: LowLoweringResult<()>)
        requires
            plan.inner_block > 0,
            replicas@.len() == lefts@.len(),
            well_recorded(old(w)@),
        ensures
            worked(
                r,
                final(self)@,
                final(w)@,
                add_partitions_from(
                    target,
                    old(self)@,
                    plan,
                    kernels@,
                    lefts@,
                    replicas@,
                    rights@,
                    outputs@,
                    partial@,
                    partitions@,
                    0,
                    old(w)@,
                ),
            ),
            well_recorded(final(w)@),
    {
        let ghost start = self@;
        let ghost before = w@;
        let mut p: usize = 0;
        while p < partitions.len()
            invariant
                p <= partitions@.len(),
                well_recorded(w@),
                add_partitions_from(
                    target,
                    start,
                    plan,
                    kernels@,
                    lefts@,
                    replicas@,
                    rights@,
                    outputs@,
                    partial@,
                    partitions@,
                    0,
                    before,
                ) == add_partitions_from(
                    target,
                    self@,
                    plan,
                    kernels@,
                    lefts@,
                    replicas@,
                    rights@,
                    outputs@,
                    partial@,
                    partitions@,
                    p as int,
                    w@,
                ),
            decreases partitions@.len() - p,
        {
            let columns: Columns = partitions[p];
            if columns.0 >= columns.2 || columns.2 - columns.0 > plan.column_block || (columns.2
                - columns.0) % AMP_COLUMN_MICRO != 0 {
                return Err(LowLoweringError::InvalidOperatorPlan);
            }
            let ghost middle = self@;
            let ghost between = w@;
            let mut k: usize = 0;
            while k < lefts.len()
                invariant
                    k <= lefts@.len(),
                    well_recorded(w@),
                    add_lefts_from(
                        target,
                        middle,
                        plan,
                        kernels@,
                        lefts@,
                        replicas@,
                        rights@,
                        outputs@,
                        partial@,
                        p as int,
                        columns,
                        0,
                        between,
                    ) == add_lefts_from(
                        target,
                        self@,
                        plan,
                        kernels@,
                        lefts@,
                        replicas@,
                        rights@,
                        outputs@,
                        partial@,
                        p as int,
                        columns,
                        k as int,
                        w@,
                    ),
                decreases lefts@.len() - k,
            {
                self.add_left(
                    target,
                    plan,
                    kernels,
                    rights,
                    outputs,
                    partial,
                    lefts[k],
                    replicas[k] as usize == p,
                    columns,
                    w,
                )?;
                k += 1;
            }
            p += 1;
        }
        Ok(())
    }
}

proof fn lemma_first_block(
    shards: Seq<ShardModel>,
    ids: Seq<LowShardId>,
    column_axis: int,
    inner_axis: int,
    columns: (u32, u32),
    inner: (u32, u32),
    i: int,
)
    requires
        0 <= i,
    ensures
        first_block_from(shards, ids, column_axis, inner_axis, columns, inner, i) matches Some(id)
            ==> ids.contains(id) && crate::lookup::holds_block(
            shards,
            id,
            column_axis,
            inner_axis,
            columns,
            inner,
        ),
    decreases ids.len() - i,
{
    if i < ids.len() && !crate::lookup::holds_block(
        shards,
        ids[i],
        column_axis,
        inner_axis,
        columns,
        inner,
    ) {
        lemma_first_block(shards, ids, column_axis, inner_axis, columns, inner, i + 1);
    }
}

} // verus!
