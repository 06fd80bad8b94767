//! Products that divide the inner axis over tiles: the sums of the partial
//! results, and the whole lowering.

use crate::buffers::packed_buffer;
use crate::copies::with_view_copies;
use crate::extents::{intersect_extents_with_shared_padding, padded_intersection};
use crate::gemm::{divides_inner, lower_resident_gemm, lower_streamed_blocked_gemm, GemmKernels};
use crate::gemm_run::{is_inner_divided, GemmRuns};
use crate::kernels::append_kernels_from;
use crate::lookup::value_shards;
use crate::low::{
    two_operands, ExchangeOrder, KernelRun, LocalCopy, LowLoweringError, LowLoweringResult,
    LowShardId, RunModel, ShardDefinition, ShardView, ViewModel, WorkProvenance, WorkReason,
};
use crate::mid::{
    GemmDistribution, GemmOrientation, KernelSpec, LocalOperandStaging, MidOperation, MidValueId,
    OperandMaterialization, OperandRequirement, OperatorRequirements, OperatorRequirementsModel,
    ReductionStaging, TileKernelSpec,
};
use crate::model::{Model, copy_all, deep, group_deep};
use crate::order::{GroupModel, Groups};
use crate::phase::{
    add_transfer, add_transfer_to, append_ordered_phase, transfers_nonempty,
};
use crate::pointwise::{new_operator_run, operator_run};
use crate::reduction_partials::{
    add_partitions_from, no_partials, well_recorded, PartialModel, PartialWork, Partials,
};
use crate::reduction_plan::{
    axes_of, column_partitions, divide_columns, new_partial_type, panel_block, panel_block_of,
    partial_type, product_axes, replica_columns, Partitions, ReductionPlan,
};
use crate::state::{
    append_copies_from, did, push_shard, shard_of, LoweringState, StateModel, Step, StepWith,
    Transfers, TransfersModel,
};
use crate::target::Target;
use crate::tensor::{Precision, ShardExtent, TensorType, TypeModel};
use vstd::prelude::*;

verus! {

// ---------------------------------------------------------------- sizes

/// `acc` times the padded widths from axis `i` on, as long as no product on the
/// way exceeds the limit.
pub open spec fn volume_from(extents: Seq<ShardExtent>, limit: int, i: int, acc: int) -> Result<
    int,
    LowLoweringError,
>
    decreases extents.len() - i,
{
    if i >= extents.len() {
        Ok(acc)
    } else if extents[i].physical_end < extents[i].start {
        Err(LowLoweringError::InvalidOperatorPlan)
    } else if acc * (extents[i].physical_end - extents[i].start) > limit {
        Err(LowLoweringError::IdOverflow)
    } else {
        volume_from(extents, limit, i + 1, acc * (extents[i].physical_end - extents[i].start))
    }
}

/// Number of elements of a rectangle with its padding.
pub open spec fn volume(extents: Seq<ShardExtent>, limit: int) -> Result<int, LowLoweringError> {
    volume_from(extents, limit, 0, 1)
}

/// Remote partial results that arrive at one time.
pub open spec fn partials_per_stage(plan: ReductionPlan) -> int {
    match plan.staging {
        ReductionStaging::Complete => plan.inner_partitions - 1,
        ReductionStaging::Streamed => 1,
    }
}

/// Number of times that partial results arrive.
pub open spec fn stage_count(plan: ReductionPlan) -> int {
    match plan.staging {
        ReductionStaging::Complete => 1,
        ReductionStaging::Streamed => plan.inner_partitions - 1,
    }
}

// ---------------------------------------------------------------- roots

/// A part of an output that is summed on the tile of the output.
#[derive(Debug)]
pub struct Root {
    pub tile: u16,
    pub elements: u32,
    /// Accumulator, to begin with.
    pub initial: LowShardId,
    /// Where remote partial results arrive.
    pub remote: LowShardId,
    /// The other accumulator.
    pub result: LowShardId,
    /// The partial result to begin with, where it is remote.
    pub seed: Option<ShardView>,
    /// All other partial results.
    pub rest: Vec<ShardView>,
}

/// Abstract value of [`Root`].
pub struct RootModel {
    pub tile: u16,
    pub elements: u32,
    pub initial: LowShardId,
    pub remote: LowShardId,
    pub result: LowShardId,
    pub seed: Option<ViewModel>,
    pub rest: Seq<ViewModel>,
}

impl View for Root {
    type V = RootModel;

    open spec fn view(&self) -> RootModel {
        RootModel {
            tile: self.tile,
            elements: self.elements,
            initial: self.initial,
            remote: self.remote,
            result: self.result,
            seed: match self.seed {
                Some(view) => Some(view@),
                None => None,
            },
            rest: deep(self.rest@),
        }
    }
}

/// The sums to compute.
#[derive(Debug)]
pub struct Sums {
    pub roots: Vec<Root>,
    pub seeds: Vec<(u16, LocalCopy)>,
    pub results: Vec<(u16, LocalCopy)>,
}

/// Abstract value of [`Sums`].
pub struct SumsModel {
    pub roots: Seq<RootModel>,
    pub seeds: Seq<(u16, LocalCopy)>,
    pub results: Seq<(u16, LocalCopy)>,
}

impl View for Sums {
    type V = SumsModel;

    open spec fn view(&self) -> SumsModel {
        SumsModel { roots: deep(self.roots@), seeds: self.seeds@, results: self.results@ }
    }
}

/// A range of a row of elements.
pub open spec fn row_view(id: LowShardId, start: int, end: int) -> ViewModel {
    ViewModel {
        shard: id,
        extents: seq![
            ShardExtent {
                axis: 0,
                start: start as u32,
                logical_end: end as u32,
                physical_end: end as u32,
            },
        ],
    }
}

/// The first partial result on the tile from position `i` on, and the first of
/// all where there is none.
pub open spec fn seed_position(partials: Seq<(u16, ViewModel)>, tile: u16, i: int) -> int
    decreases partials.len() - i,
{
    if i >= partials.len() {
        0
    } else if partials[i].0 == tile {
        i
    } else {
        seed_position(partials, tile, i + 1)
    }
}

/// Part of a partial result.
pub open spec fn part_of(partial: ViewModel, extents: Seq<ShardExtent>) -> ViewModel {
    ViewModel { shard: partial.shard, extents }
}

/// The parts of all partial results but one.
pub open spec fn other_parts(
    partials: Seq<(u16, ViewModel)>,
    seed: int,
    extents: Seq<ShardExtent>,
) -> Seq<ViewModel> {
    Seq::new(
        (partials.len() - 1) as nat,
        |i: int|
            part_of(
                partials[if i < seed {
                    i
                } else {
                    i + 1
                }].1,
                extents,
            ),
    )
}

/// Memory for the sum of one part of an output: two accumulators, and one row
/// for each partial result that arrives at a time.
pub open spec fn root_buffers(s: StateModel, plan: ReductionPlan, tile: u16, elements: u32) -> StepWith<
    (LowShardId, LowShardId, LowShardId),
> {
    match push_shard(s, packed_buffer(tile, elements, Precision::F16, ShardDefinition::Staging)) {
        Err(e) => Err(e),
        Ok((a, initial)) => if elements * partials_per_stage(plan) > u32::MAX {
            Err(LowLoweringError::IdOverflow)
        } else {
            match push_shard(
                a,
                packed_buffer(
                    tile,
                    (elements * partials_per_stage(plan)) as u32,
                    Precision::F16,
                    ShardDefinition::ExchangeStaging,
                ),
            ) {
                Err(e) => Err(e),
                Ok((b, remote)) => match push_shard(
                    b,
                    packed_buffer(tile, elements, Precision::F16, ShardDefinition::Staging),
                ) {
                    Err(e) => Err(e),
                    Ok((c, result)) => Ok((c, (initial, remote, result))),
                },
            }
        },
    }
}

/// Adds the sum of the partial results for one part of an output. It begins with
/// a resident partial result where there is one, and ends in the accumulator
/// that the last stage wrote, from where it is copied to the output.
pub open spec fn add_root<M: Target>(
    target: &M,
    s: StateModel,
    plan: ReductionPlan,
    partials: Seq<(u16, ViewModel)>,
    output: LowShardId,
    tile: u16,
    part: Seq<ShardExtent>,
    elements: u32,
    w: SumsModel,
) -> StepWith<SumsModel> {
    match root_buffers(s, plan, tile, elements) {
        Err(e) => Err(e),
        Ok((next, (initial, remote, result))) => if partials.len() - 1 > stage_count(plan)
            * partials_per_stage(plan) {
            Err(LowLoweringError::InvalidOperatorPlan)
        } else {
            let seed = seed_position(partials, tile, 0);
            let source = part_of(partials[seed].1, part);
            let local = partials[seed].0 == tile;
            match (if local {
                with_view_copies(
                    target,
                    next.shards,
                    source,
                    row_view(initial, 0, elements as int),
                    tile,
                    ExchangeOrder::Physical,
                    w.seeds,
                )
            } else {
                Ok(w.seeds)
            }) {
                Err(e) => Err(e),
                Ok(seeds) => match with_view_copies(
                    target,
                    next.shards,
                    row_view(
                        if stage_count(plan) % 2 == 0 {
                            initial
                        } else {
                            result
                        },
                        0,
                        elements as int,
                    ),
                    ViewModel { shard: output, extents: part },
                    tile,
                    ExchangeOrder::Physical,
                    w.results,
                ) {
                    Err(e) => Err(e),
                    Ok(results) => Ok(
                        (
                            next,
                            SumsModel {
                                roots: w.roots.push(
                                    RootModel {
                                        tile,
                                        elements,
                                        initial,
                                        remote,
                                        result,
                                        seed: if local {
                                            None
                                        } else {
                                            Some(source)
                                        },
                                        rest: other_parts(partials, seed, part),
                                    },
                                ),
                                seeds,
                                results,
                            },
                        ),
                    ),
                },
            }
        },
    }
}

/// Adds the sums for the outputs from `k` on. Together with `covered`, they must
/// have as many elements as the partial result.
pub open spec fn add_roots_from<M: Target>(
    target: &M,
    s: StateModel,
    plan: ReductionPlan,
    partials: Seq<(u16, ViewModel)>,
    outputs: Seq<LowShardId>,
    expected: int,
    k: int,
    covered: int,
    w: SumsModel,
) -> StepWith<SumsModel>
    decreases outputs.len() - k,
{
    if k >= outputs.len() {
        if covered == expected {
            Ok((s, w))
        } else {
            Err(LowLoweringError::InvalidOperatorPlan)
        }
    } else {
        match shard_of(s.shards, outputs[k]) {
            Err(e) => Err(e),
            Ok(owner) => match padded_intersection(owner.extents, partials[0].1.extents) {
                None => add_roots_from(
                    target,
                    s,
                    plan,
                    partials,
                    outputs,
                    expected,
                    k + 1,
                    covered,
                    w,
                ),
                Some(part) => match volume(part, u32::MAX as int) {
                    Err(e) => Err(e),
                    Ok(elements) => if elements == 0 || elements % 8 != 0 {
                        Err(LowLoweringError::InvalidOperatorPlan)
                    } else if covered + elements > u64::MAX {
                        Err(LowLoweringError::IdOverflow)
                    } else {
                        match add_root(
                            target,
                            s,
                            plan,
                            partials,
                            outputs[k],
                            owner.tile,
                            part,
                            elements as u32,
                            w,
                        ) {
                            Err(e) => Err(e),
                            Ok((next, more)) => add_roots_from(
                                target,
                                next,
                                plan,
                                partials,
                                outputs,
                                expected,
                                k + 1,
                                covered + elements,
                                more,
                            ),
                        }
                    },
                },
            },
        }
    }
}

/// Adds the sums for the groups of partial results from `g` on.
pub open spec fn add_groups_from<M: Target>(
    target: &M,
    s: StateModel,
    plan: ReductionPlan,
    groups: Seq<GroupModel<(u16, ViewModel)>>,
    outputs: Seq<LowShardId>,
    g: int,
    w: SumsModel,
) -> StepWith<SumsModel>
    decreases groups.len() - g,
{
    if g >= groups.len() {
        Ok((s, w))
    } else {
        match volume(groups[g].items[0].1.extents, u64::MAX as int) {
            Err(e) => Err(e),
            Ok(expected) => match add_roots_from(
                target,
                s,
                plan,
                groups[g].items,
                outputs,
                expected,
                0,
                0,
                w,
            ) {
                Err(e) => Err(e),
                Ok((next, more)) => add_groups_from(
                    target,
                    next,
                    plan,
                    groups,
                    outputs,
                    g + 1,
                    more,
                ),
            },
        }
    }
}

// ---------------------------------------------------------------- stages

/// Number of partial results that arrive for a root in a stage.
pub open spec fn chunk_len(root: RootModel, per_stage: int, stage: int) -> int {
    if stage * per_stage >= root.rest.len() {
        0
    } else if (stage + 1) * per_stage <= root.rest.len() {
        per_stage
    } else {
        root.rest.len() - stage * per_stage
    }
}

/// Adds the transfers of a chunk of partial results from `slot` on, each into a
/// row of its own.
pub open spec fn chunk_transfers_from(
    root: RootModel,
    first: int,
    count: int,
    slot: int,
    transfers: TransfersModel,
) -> TransfersModel
    decreases count - slot,
{
    if slot >= count {
        transfers
    } else {
        chunk_transfers_from(
            root,
            first,
            count,
            slot + 1,
            add_transfer(
                transfers,
                root.rest[first + slot],
                row_view(root.remote, slot * root.elements, (slot + 1) * root.elements),
            ),
        )
    }
}

/// Adds the transfers of a root in a stage. A remote partial result to begin
/// with comes in the first one.
pub open spec fn root_transfers(
    root: RootModel,
    per_stage: int,
    stage: int,
    transfers: TransfersModel,
) -> TransfersModel {
    chunk_transfers_from(
        root,
        stage * per_stage,
        chunk_len(root, per_stage, stage),
        0,
        match root.seed {
            Some(seed) if stage == 0 => add_transfer(
                transfers,
                seed,
                row_view(root.initial, 0, root.elements as int),
            ),
            _ => transfers,
        },
    )
}

/// Adds the transfers in a stage of the roots from `i` on.
pub open spec fn stage_transfers_from(
    roots: Seq<RootModel>,
    per_stage: int,
    stage: int,
    i: int,
    transfers: TransfersModel,
) -> TransfersModel
    decreases roots.len() - i,
{
    if i >= roots.len() {
        transfers
    } else {
        stage_transfers_from(
            roots,
            per_stage,
            stage,
            i + 1,
            root_transfers(roots[i], per_stage, stage, transfers),
        )
    }
}

/// The sum of the accumulator and a chunk of partial results. The accumulators
/// take turns.
pub open spec fn root_run(
    plan: ReductionPlan,
    requirements: OperatorRequirementsModel,
    root: RootModel,
    stage: int,
) -> RunModel {
    let elements = root.elements as int;
    let (from, to) = if stage % 2 == 0 {
        (root.initial, root.result)
    } else {
        (root.result, root.initial)
    };
    operator_run(
        WorkProvenance {
            operation: plan.source,
            value: Some(plan.output),
            reason: WorkReason::OperatorKernel,
        },
        KernelSpec::ReductionSum {
            partials: (chunk_len(root, partials_per_stage(plan), stage) + 1) as u16,
        },
        seq![
            seq![row_view(from, 0, elements)],
            seq![row_view(root.remote, 0, elements * partials_per_stage(plan))],
        ],
        row_view(to, 0, elements),
        requirements,
    )
}

/// `done` followed by the sums in a stage of the roots from `i` on.
pub open spec fn stage_runs_from(
    plan: ReductionPlan,
    requirements: OperatorRequirementsModel,
    roots: Seq<RootModel>,
    stage: int,
    i: int,
    done: Seq<(u16, RunModel)>,
) -> Seq<(u16, RunModel)>
    decreases roots.len() - i,
{
    if i >= roots.len() {
        done
    } else {
        stage_runs_from(
            plan,
            requirements,
            roots,
            stage,
            i + 1,
            if chunk_len(roots[i], partials_per_stage(plan), stage) == 0 {
                done
            } else {
                done.push((roots[i].tile, root_run(plan, requirements, roots[i], stage)))
            },
        )
    }
}

/// Schedules one stage: the transfers, then the resident partial results in
/// the first one, then the sums.
pub open spec fn append_stage(
    s: StateModel,
    plan: ReductionPlan,
    requirements: OperatorRequirementsModel,
    w: SumsModel,
    stage: int,
) -> Step {
    match append_ordered_phase(
        s,
        stage_transfers_from(w.roots, partials_per_stage(plan), stage, 0, Seq::empty()),
        WorkProvenance {
            operation: plan.source,
            value: Some(plan.output),
            reason: WorkReason::OperatorInputs,
        },
        ExchangeOrder::Physical,
    ) {
        Err(e) => Err(e),
        Ok(a) => match append_copies_from(
            a,
            if stage == 0 {
                w.seeds
            } else {
                Seq::empty()
            },
            0,
        ) {
            Err(e) => Err(e),
            Ok(b) => append_kernels_from(
                b,
                stage_runs_from(plan, requirements, w.roots, stage, 0, Seq::empty()),
                0,
            ),
        },
    }
}

/// Schedules the stages from `stage` on.
pub open spec fn append_stages_from(
    s: StateModel,
    plan: ReductionPlan,
    requirements: OperatorRequirementsModel,
    w: SumsModel,
    stage: int,
) -> Step
    decreases stage_count(plan) - stage,
{
    if stage >= stage_count(plan) {
        Ok(s)
    } else {
        match append_stage(s, plan, requirements, w, stage) {
            Err(e) => Err(e),
            Ok(next) => append_stages_from(next, plan, requirements, w, stage + 1),
        }
    }
}

// ---------------------------------------------------------------- lowering

/// The requirements with the two inputs exchanged.
pub open spec fn with_inputs_exchanged(requirements: OperatorRequirementsModel) -> OperatorRequirementsModel {
    OperatorRequirementsModel {
        inputs: requirements.inputs.update(0, requirements.inputs[1]).update(
            1,
            requirements.inputs[0],
        ),
        ..requirements
    }
}

/// The requirements of the kernels, whose first input is the left operand.
pub open spec fn kernel_requirements(
    orientation: GemmOrientation,
    requirements: OperatorRequirementsModel,
) -> OperatorRequirementsModel {
    match orientation {
        GemmOrientation::Normal => requirements,
        GemmOrientation::Swapped => with_inputs_exchanged(requirements),
    }
}

/// How a product is divided over tiles.
#[derive(Clone, Copy, Debug)]
pub struct Division {
    pub inner_block: u32,
    pub column_block: u32,
    pub partitions: Partitions,
    pub staging: ReductionStaging,
    pub orientation: GemmOrientation,
}

/// Work of the partial results, in order.
pub open spec fn append_partials(s: StateModel, plan: ReductionPlan, w: PartialModel) -> Step {
    match append_ordered_phase(
        s,
        w.transfers,
        WorkProvenance {
            operation: plan.source,
            value: Some(plan.right),
            reason: WorkReason::OperatorInput {
                input: match plan.orientation {
                    GemmOrientation::Normal => 1,
                    GemmOrientation::Swapped => 0,
                },
            },
        },
        ExchangeOrder::Semantic,
    ) {
        Err(e) => Err(e),
        Ok(a) => match append_copies_from(a, w.copies, 0) {
            Err(e) => Err(e),
            Ok(b) => append_kernels_from(b, w.runs, 0),
        },
    }
}

/// Sums the partial results into the outputs.
pub open spec fn append_sums<M: Target>(
    target: &M,
    s: StateModel,
    plan: ReductionPlan,
    requirements: OperatorRequirementsModel,
    groups: Seq<GroupModel<(u16, ViewModel)>>,
    outputs: Seq<LowShardId>,
) -> Step {
    match add_groups_from(
        target,
        s,
        plan,
        groups,
        outputs,
        0,
        SumsModel { roots: Seq::empty(), seeds: Seq::empty(), results: Seq::empty() },
    ) {
        Err(e) => Err(e),
        Ok((a, sums)) => match append_stages_from(a, plan, requirements, sums, 0) {
            Err(e) => Err(e),
            Ok(b) => append_copies_from(b, sums.results, 0),
        },
    }
}

/// Lowers a planned product: divides the columns, computes the partial results
/// and sums them.
pub open spec fn reduce_planned<M: Target>(
    target: &M,
    s: StateModel,
    plan: ReductionPlan,
    kernels: GemmKernels,
    requirements: OperatorRequirementsModel,
    division: Division,
    output: TypeModel,
    lefts: Seq<LowShardId>,
    rights: Seq<LowShardId>,
    outputs: Seq<LowShardId>,
) -> Step {
    match column_partitions(target, output, plan.axes, division.partitions.columns) {
        Err(e) => Err(e),
        Ok((tiling, columns)) => match replica_columns(
            s.shards,
            lefts,
            division.partitions.columns,
        ) {
            Err(e) => Err(e),
            Ok(replicas) => match add_partitions_from(
                target,
                s,
                plan,
                kernels,
                lefts,
                replicas,
                rights,
                outputs,
                partial_type(
                    target,
                    output,
                    division.orientation,
                    division.column_block,
                    division.partitions,
                    plan.axes,
                    tiling,
                ),
                columns,
                0,
                no_partials(),
            ) {
                Err(e) => Err(e),
                Ok((a, w)) => match append_partials(a, plan, w) {
                    Err(e) => Err(e),
                    Ok(b) => append_sums(target, b, plan, requirements, w.partials, outputs),
                },
            },
        },
    }
}

/// Lowers a product once its operands are known: the left operand is the one
/// that stays, the right one is brought to it.
pub open spec fn reduce_product<M: Target>(
    target: &M,
    s: StateModel,
    operation: MidOperation,
    kernels: GemmKernels,
    division: Division,
    left: MidValueId,
    right: MidValueId,
    lefts: Seq<LowShardId>,
    rights: Seq<LowShardId>,
    outputs: Seq<LowShardId>,
) -> Step {
    let required = kernel_requirements(division.orientation, kernels.requirements);
    match shard_of(s.shards, lefts[0]) {
        Err(e) => Err(e),
        Ok(first_left) => match shard_of(s.shards, rights[0]) {
            Err(e) => Err(e),
            Ok(first_right) => match shard_of(s.shards, outputs[0]) {
                Err(e) => Err(e),
                Ok(first_output) => if first_left.extents.len() < 2 || first_right.extents.len()
                    < 2 || first_output.extents.len() < 2 {
                    Err(LowLoweringError::InvalidOperatorPlan)
                } else {
                    let axes = product_axes(
                        division.orientation,
                        first_left.extents.len(),
                        first_right.extents.len(),
                        first_output.extents.len(),
                    );
                    let plan = ReductionPlan {
                        source: operation.source,
                        left,
                        right,
                        output: operation.results@[0],
                        orientation: division.orientation,
                        axes,
                        inner_block: division.inner_block,
                        column_block: division.column_block,
                        panel_block: panel_block(required.inputs[1].format.layout.order),
                        slices: required.inputs[0].materialization
                            == OperandMaterialization::DispatchSlices,
                        stage_local: required.inputs[1].local_staging
                            == LocalOperandStaging::MatchRemote,
                        inner_partitions: division.partitions.inner,
                        staging: division.staging,
                    };
                    reduce_planned(
                        target,
                        s,
                        plan,
                        GemmKernels { requirements: required, ..kernels },
                        kernels.requirements,
                        division,
                        first_output.tensor_type,
                        lefts,
                        rights,
                        outputs,
                    )
                },
            },
        },
    }
}

/// A divided product is refused before anything is done for it.
pub open spec fn refuses_reduction(
    s: StateModel,
    operation: MidOperation,
    kernels: GemmKernels,
    division: Division,
) -> bool {
    ||| operation.inputs@.len() != 2
    ||| operation.results@.len() != 1
    ||| division.inner_block == 0
    ||| division.column_block == 0
    ||| !division.partitions.valid()
    ||| kernels.requirements.inputs.len() < 2
    ||| value_shards(s, operation.inputs@[0]) is Err
    ||| value_shards(s, operation.inputs@[1]) is Err
    ||| value_shards(s, operation.results@[0]) is Err
}

/// Lowers a product that divides the inner axis over tiles.
pub open spec fn lower_parallel_reduction_gemm<M: Target>(
    target: &M,
    s: StateModel,
    operation: MidOperation,
    kernels: GemmKernels,
    division: Division,
) -> Step {
    if operation.inputs@.len() != 2 {
        Err(LowLoweringError::InvalidOperatorPlan)
    } else if operation.results@.len() != 1 {
        Err(LowLoweringError::ResultArity)
    } else if division.inner_block == 0 || division.column_block == 0
        || !division.partitions.valid() || kernels.requirements.inputs.len() < 2 {
        Err(LowLoweringError::InvalidOperatorPlan)
    } else {
        let (left, right) = match division.orientation {
            GemmOrientation::Normal => (operation.inputs@[0], operation.inputs@[1]),
            GemmOrientation::Swapped => (operation.inputs@[1], operation.inputs@[0]),
        };
        match value_shards(s, left) {
            Err(e) => Err(e),
            Ok(lefts) => match value_shards(s, right) {
                Err(e) => Err(e),
                Ok(rights) => match value_shards(s, operation.results@[0]) {
                    Err(e) => Err(e),
                    Ok(outputs) => reduce_product(
                        target,
                        s,
                        operation,
                        kernels,
                        division,
                        left,
                        right,
                        lefts,
                        rights,
                        outputs,
                    ),
                },
            },
        }
    }
}

/// Lowers a matrix product, by how it is distributed over tiles.
pub open spec fn lower_blocked_gemm<M: Target>(
    target: &M,
    s: StateModel,
    operation: MidOperation,
    kernels: GemmKernels,
    inner_block: u32,
    column_block: u32,
    orientation: GemmOrientation,
    distribution: GemmDistribution,
) -> Step {
    match distribution {
        GemmDistribution::ParallelReduction {
            row_partitions,
            column_partitions,
            inner_partitions,
            result_row_partitions,
            result_column_partitions,
            reduction_staging,
        } => lower_parallel_reduction_gemm(
            target,
            s,
            operation,
            kernels,
            Division {
                inner_block,
                column_block,
                partitions: Partitions {
                    rows: row_partitions,
                    columns: column_partitions,
                    inner: inner_partitions,
                    result_rows: result_row_partitions,
                    result_columns: result_column_partitions,
                },
                staging: reduction_staging,
                orientation,
            },
        ),
        GemmDistribution::OutputStationary => if orientation != GemmOrientation::Normal {
            Err(LowLoweringError::InvalidOperatorPlan)
        } else if kernels.requirements.inputs.len() >= 2 && divides_inner(
            kernels.requirements.inputs[1].format.layout.axes,
        ) {
            lower_streamed_blocked_gemm(target, s, operation, kernels, inner_block, column_block)
        } else {
            lower_resident_gemm(target, s, operation, kernels, inner_block, column_block, false)
        },
    }
}

// ---------------------------------------------------------------- carrying out

/// `r` is the expected number, or the expected error.
pub open spec fn counted(r: LowLoweringResult<u64>, expected: Result<int, LowLoweringError>) -> bool {
    match r {
        Ok(n) => expected == Ok::<int, LowLoweringError>(n as int),
        Err(e) => expected == Err::<int, LowLoweringError>(e),
    }
}

/// Number of elements of a rectangle, up to a limit.
pub fn volume_of(extents: &Vec<ShardExtent>, limit: u64) -> (r: LowLoweringResult<u64>)
    ensures
        counted(r, volume(extents@, limit as int)),
        r matches Ok(n) ==> n <= limit || n == 1,
{
    let mut total: u64 = 1;
    let mut i: usize = 0;
    while i < extents.len()
        invariant
            i <= extents@.len(),
            total <= limit || total == 1,
            volume(extents@, limit as int) == volume_from(
                extents@,
                limit as int,
                i as int,
                total as int,
            ),
        decreases extents@.len() - i,
    {
        let extent: ShardExtent = extents[i];
        if extent.physical_end < extent.start {
            return Err(LowLoweringError::InvalidOperatorPlan);
        }
        total = match total.checked_mul((extent.physical_end - extent.start) as u64) {
            Some(next) => {
                if next > limit {
                    return Err(LowLoweringError::IdOverflow);
                }
                next
            },
            None => {
                return Err(LowLoweringError::IdOverflow);
            },
        };
        i += 1;
    }
    Ok(total)
}

fn new_row_view(id: LowShardId, start: u32, end: u32) -> (r: ShardView)
    ensures
        r@ == row_view(id, start as int, end as int),
{
    let mut extents: Vec<ShardExtent> = Vec::new();
    extents.push(ShardExtent { axis: 0, start, logical_end: end, physical_end: end });
    let view = ShardView { shard: id, extents };
    assert(view@.extents =~= row_view(id, start as int, end as int).extents);
    view
}

fn find_seed(partials: &Vec<(u16, ShardView)>, tile: u16) -> (r: usize)
    requires
        partials@.len() > 0,
    ensures
        r == seed_position(deep(partials@), tile, 0),
        r < partials@.len(),
{
    broadcast use group_deep;

    let ghost model = deep(partials@);
    let mut i: usize = 0;
    while i < partials.len()
        invariant
            i <= partials@.len(),
            seed_position(model, tile, 0) == seed_position(model, tile, i as int),
        decreases partials@.len() - i,
    {
        assert(model[i as int] == partials@[i as int]@);
        if partials[i].0 == tile {
            return i;
        }
        i += 1;
    }
    0
}

fn new_part(partial: &ShardView, extents: &Vec<ShardExtent>) -> (r: ShardView)
    ensures
        r@ == part_of(partial@, extents@),
{
    ShardView { shard: partial.shard, extents: copy_all(extents.as_slice()) }
}

fn parts_without(partials: &Vec<(u16, ShardView)>, seed: usize, extents: &Vec<ShardExtent>) -> (r:
    Vec<ShardView>)
    requires
        seed < partials@.len(),
    ensures
        deep(r@) == other_parts(deep(partials@), seed as int, extents@),
{
    broadcast use group_deep;

    let ghost model = deep(partials@);
    let mut parts: Vec<ShardView> = Vec::new();
    let mut i: usize = 0;
    while i < partials.len()
        invariant
            i <= partials@.len(),
            parts@.len() == (if i <= seed {
                i as int
            } else {
                i - 1
            }),
            forall|k: int|
                0 <= k < parts@.len() ==> (#[trigger] deep(parts@)[k]) == other_parts(
                    model,
                    seed as int,
                    extents@,
                )[k],
        decreases partials@.len() - i,
    {
        if i != seed {
            assert(model[i as int] == partials@[i as int]@);
            let ghost before = parts@;
            let part = new_part(&partials[i].1, extents);
            parts.push(part);
            assert forall|k: int| 0 <= k < parts@.len() implies (#[trigger] deep(parts@)[k])
                == other_parts(model, seed as int, extents@)[k] by {
                if k < before.len() {
                    assert(deep(before)[k] == deep(parts@)[k]);
                }
            }
        }
        i += 1;
    }
    assert(deep(parts@) =~= other_parts(model, seed as int, extents@));
    parts
}

fn per_stage_of(plan: ReductionPlan) -> (r: u16)
    requires
        plan.inner_partitions >= 2,
    ensures
        r == partials_per_stage(plan),
        r >= 1,
{
    match plan.staging {
        ReductionStaging::Complete => plan.inner_partitions - 1,
        ReductionStaging::Streamed => 1,
    }
}

fn stages_of(plan: ReductionPlan) -> (r: u16)
    requires
        plan.inner_partitions >= 2,
    ensures
        r == stage_count(plan),
        r >= 1,
{
    match plan.staging {
        ReductionStaging::Complete => 1,
        ReductionStaging::Streamed => plan.inner_partitions - 1,
    }
}

/// A root that can hold what arrives at a time.
pub open spec fn has_room(root: RootModel, plan: ReductionPlan) -> bool {
    root.elements * partials_per_stage(plan) <= u32::MAX
}

/// All roots can hold what arrives at a time.
pub open spec fn all_have_room(roots: Seq<RootModel>, plan: ReductionPlan) -> bool {
    forall|i: int| 0 <= i < roots.len() ==> has_room(#[trigger] roots[i], plan)
}

fn chunk_of(root: &Root, per_stage: u16, stage: u16) -> (r: (usize, usize))
    requires
        per_stage >= 1,
    ensures
        r.1 == chunk_len(root@, per_stage as int, stage as int),
        r.1 <= per_stage,
        r.1 > 0 ==> r.0 == stage * per_stage,
        r.1 > 0 ==> r.0 + r.1 <= root.rest@.len(),
{
    broadcast use group_deep;

    assert(0 <= stage * per_stage <= 0xffff * 0xffff) by (nonlinear_arith);
    assert((stage + 1) * per_stage == stage * per_stage + per_stage) by (nonlinear_arith);
    let first: u32 = stage as u32 * per_stage as u32;
    if first as u64 >= root.rest.len() as u64 {
        return (0, 0);
    }
    let first: usize = first as usize;
    let left: usize = root.rest.len() - first;
    if left >= per_stage as usize {
        (first, per_stage as usize)
    } else {
        (first, left)
    }
}

fn add_root_transfers(
    root: &Root,
    plan: ReductionPlan,
    per_stage: u16,
    stage: u16,
    transfers: &mut Transfers,
)
    requires
        per_stage >= 1,
        per_stage == partials_per_stage(plan),
        has_room(root@, plan),
        transfers_nonempty(old(transfers)@),
    ensures
        final(transfers)@ == root_transfers(
            root@,
            per_stage as int,
            stage as int,
            old(transfers)@,
        ),
        transfers_nonempty(final(transfers)@),
{
    broadcast use group_deep;

    if stage == 0 {
        match &root.seed {
            Some(seed) => {
                add_transfer_to(
                    transfers,
                    seed.duplicate(),
                    new_row_view(root.initial, 0, root.elements),
                );
            },
            None => {},
        }
    }
    let ghost start = transfers@;
    let (first, count) = chunk_of(root, per_stage, stage);
    let mut slot: usize = 0;
    let mut offset: u32 = 0;
    assert(0 * root.elements == 0) by (nonlinear_arith);
    while slot < count
        invariant
            slot <= count,
            offset == slot * root.elements,
            transfers_nonempty(transfers@),
            chunk_transfers_from(root@, stage * per_stage, count as int, 0, start)
                == chunk_transfers_from(
                root@,
                stage * per_stage,
                count as int,
                slot as int,
                transfers@,
            ),
        decreases count - slot,
    {
        proof {
            assert((slot + 1) * root.elements == slot * root.elements + root.elements)
                by (nonlinear_arith);
            assert((slot + 1) * root.elements <= root.elements * per_stage) by (nonlinear_arith)
                requires
                    slot + 1 <= per_stage,
            ;
        }
        let end: u32 = offset + root.elements;
        assert(root.rest.len() == root.rest@.len());
        assert(root@.rest[first + slot] == root.rest@[first + slot]@);
        add_transfer_to(
            transfers,
            root.rest[first + slot].duplicate(),
            new_row_view(root.remote, offset, end),
        );
        offset = end;
        slot += 1;
    }
}

fn new_root_run(
    plan: ReductionPlan,
    requirements: &OperatorRequirements,
    root: &Root,
    per_stage: u16,
    stage: u16,
    count: u16,
) -> (r: KernelRun)
    requires
        per_stage == partials_per_stage(plan),
        count == chunk_len(root@, per_stage as int, stage as int),
        count < u16::MAX,
        has_room(root@, plan),
    ensures
        r@ == root_run(plan, requirements@, root@, stage as int),
{
    let (from, to) = if stage % 2 == 0 {
        (root.initial, root.result)
    } else {
        (root.result, root.initial)
    };
    assert(0 <= root.elements * per_stage) by (nonlinear_arith);
    let arriving: u32 = root.elements * per_stage as u32;
    new_operator_run(
        WorkProvenance {
            operation: plan.source,
            value: Some(plan.output),
            reason: WorkReason::OperatorKernel,
        },
        KernelSpec::ReductionSum { partials: count + 1 },
        two_operands(
            new_row_view(from, 0, root.elements),
            new_row_view(root.remote, 0, arriving),
        ),
        new_row_view(to, 0, root.elements),
        requirements,
    )
}

fn exchange_inputs(requirements: &OperatorRequirements) -> (r: OperatorRequirements)
    requires
        requirements.inputs@.len() >= 2,
    ensures
        r@ == with_inputs_exchanged(requirements@),
{
    broadcast use group_deep;

    let mut r = requirements.duplicate();
    let first: OperandRequirement = requirements.inputs[0].duplicate();
    let second: OperandRequirement = requirements.inputs[1].duplicate();
    r.inputs.set(0, second);
    r.inputs.set(1, first);
    assert(r@.inputs =~= with_inputs_exchanged(requirements@).inputs);
    r
}

fn new_partial_work() -> (r: PartialWork)
    ensures
        r@ == no_partials(),
        well_recorded(r@),
{
    broadcast use group_deep;

    let w = PartialWork {
        transfers: Groups::new(),
        copies: Vec::new(),
        runs: Vec::new(),
        partials: Groups::new(),
        lefts: Vec::new(),
        weights: Vec::new(),
    };
    proof {
        let none = no_partials();
        assert(w@.copies =~= none.copies);
        assert(w@.runs =~= none.runs);
        assert(w@.lefts =~= none.lefts);
        assert(w@.weights =~= none.weights);
    }
    w
}

/// `r` leaves the expected sums, or is the expected error.
pub open spec fn summed(
    r: LowLoweringResult<()>,
    after: StateModel,
    sums: SumsModel,
    step: StepWith<SumsModel>,
) -> bool {
    match r {
        Ok(_) => step == Ok::<(StateModel, SumsModel), LowLoweringError>((after, sums)),
        Err(e) => step == Err::<(StateModel, SumsModel), LowLoweringError>(e),
    }
}

impl LoweringState {
    fn root_buffers(&mut self, plan: ReductionPlan, tile: u16, elements: u32) -> (r:
        LowLoweringResult<(LowShardId, LowShardId, LowShardId)>)
        requires
            plan.inner_partitions >= 2,
        ensures
            match r {
                Ok(ids) => root_buffers(old(self)@, plan, tile, elements) == Ok::<
                    (StateModel, (LowShardId, LowShardId, LowShardId)),
                    LowLoweringError,
                >((final(self)@, ids)) && elements * partials_per_stage(plan) <= u32::MAX,
                Err(e) => root_buffers(old(self)@, plan, tile, elements) == Err::<
                    (StateModel, (LowShardId, LowShardId, LowShardId)),
                    LowLoweringError,
                >(e),
            },
    {
        let per_stage: u16 = per_stage_of(plan);
        let initial = self.push_packed_buffer(
            tile,
            elements,
            Precision::F16,
            ShardDefinition::Staging,
        )?;
        let arriving: u32 = match elements.checked_mul(per_stage as u32) {
            Some(arriving) => arriving,
            None => {
                return Err(LowLoweringError::IdOverflow);
            },
        };
        let remote = self.push_packed_buffer(
            tile,
            arriving,
            Precision::F16,
            ShardDefinition::ExchangeStaging,
        )?;
        let result = self.push_packed_buffer(
            tile,
            elements,
            Precision::F16,
            ShardDefinition::Staging,
        )?;
        Ok((initial, remote, result))
    }

    fn add_root<M: Target>(
        &mut self,
        target: &M,
        plan: ReductionPlan,
        partials: &Vec<(u16, ShardView)>,
        output: LowShardId,
        tile: u16,
        part: Vec<ShardExtent>,
        elements: u32,
        w: &mut Sums,
    ) -> (r: LowLoweringResult<()>)
        requires
            plan.inner_partitions >= 2,
            partials@.len() > 0,
            all_have_room(old(w)@.roots, plan),
        ensures
            summed(
                r,
                final(self)@,
                final(w)@,
                add_root(
                    target,
                    old(self)@,
                    plan,
                    deep(partials@),
                    output,
                    tile,
                    part@,
                    elements,
                    old(w)@,
                ),
            ),
            r is Ok ==> all_have_room(final(w)@.roots, plan),
    {
        broadcast use group_deep;

        let (initial, remote, result) = self.root_buffers(plan, tile, elements)?;
        let stages: u16 = stages_of(plan);
        let per_stage: u16 = per_stage_of(plan);
        assert(0 <= stages * per_stage <= 0xffff * 0xffff) by (nonlinear_arith);
        if (partials.len() - 1) as u64 > stages as u64 * per_stage as u64 {
            return Err(LowLoweringError::InvalidOperatorPlan);
        }
        let seed: usize = find_seed(partials, tile);
        assert(deep(partials@)[seed as int] == partials@[seed as int]@);
        let source = new_part(&partials[seed].1, &part);
        let local = partials[seed].0 == tile;
        if local {
            self.append_view_copies(
                target,
                &source,
                &new_row_view(initial, 0, elements),
                tile,
                ExchangeOrder::Physical,
                &mut w.seeds,
            )?;
        }
        let last = if stages % 2 == 0 {
            initial
        } else {
            result
        };
        let rest = parts_without(partials, seed, &part);
        self.append_view_copies(
            target,
            &new_row_view(last, 0, elements),
            &ShardView { shard: output, extents: part },
            tile,
            ExchangeOrder::Physical,
            &mut w.results,
        )?;
        let ghost before = w@.roots;
        let root = Root {
            tile,
            elements,
            initial,
            remote,
            result,
            seed: if local {
                None
            } else {
                Some(source)
            },
            rest,
        };
        w.roots.push(root);
        assert(w@.roots == before.push(root@));
        Ok(())
    }

    fn add_roots<M: Target>(
        &mut self,
        target: &M,
        plan: ReductionPlan,
        partials: &Vec<(u16, ShardView)>,
        outputs: &Vec<LowShardId>,
        expected: u64,
        w: &mut Sums,
    ) -> (r: LowLoweringResult<()>)
        requires
            plan.inner_partitions >= 2,
            partials@.len() > 0,
            all_have_room(old(w)@.roots, plan),
        ensures
            summed(
                r,
                final(self)@,
                final(w)@,
                add_roots_from(
                    target,
                    old(self)@,
                    plan,
                    deep(partials@),
                    outputs@,
                    expected as int,
                    0,
                    0,
                    old(w)@,
                ),
            ),
            r is Ok ==> all_have_room(final(w)@.roots, plan),
    {
        broadcast use group_deep;

        let ghost start = self@;
        let ghost before = w@;
        let ghost model = deep(partials@);
        assert(model[0] == partials@[0]@);
        let mut covered: u64 = 0;
        let mut k: usize = 0;
        while k < outputs.len()
            invariant
                k <= outputs@.len(),
                all_have_room(w@.roots, plan),
                add_roots_from(
                    target,
                    start,
                    plan,
                    model,
                    outputs@,
                    expected as int,
                    0,
                    0,
                    before,
                ) == add_roots_from(
                    target,
                    self@,
                    plan,
                    model,
                    outputs@,
                    expected as int,
                    k as int,
                    covered as int,
                    w@,
                ),
            decreases outputs@.len() - k,
        {
            let output = outputs[k];
            let owner = self.shard(output)?;
            let tile: u16 = owner.tile;
            match intersect_extents_with_shared_padding(
                owner.extents.as_slice(),
                partials[0].1.extents.as_slice(),
            ) {
                None => {},
                Some(part) => {
                    let elements: u64 = volume_of(&part, 0xffff_ffff)?;
                    if elements == 0 || elements % 8 != 0 {
                        return Err(LowLoweringError::InvalidOperatorPlan);
                    }
                    covered = match covered.checked_add(elements) {
                        Some(covered) => covered,
                        None => {
                            return Err(LowLoweringError::IdOverflow);
                        },
                    };
                    self.add_root(
                        target,
                        plan,
                        partials,
                        output,
                        tile,
                        part,
                        elements as u32,
                        w,
                    )?;
                },
            }
            k += 1;
        }
        if covered != expected {
            return Err(LowLoweringError::InvalidOperatorPlan);
        }
        Ok(())
    }

    fn append_stage(
        &mut self,
        plan: ReductionPlan,
        requirements: &OperatorRequirements,
        w: &Sums,
        stage: u16,
    ) -> (r: LowLoweringResult<()>)
        requires
            plan.inner_partitions >= 2,
            all_have_room(w@.roots, plan),
        ensures
            did(
                r,
                final(self)@,
                append_stage(old(self)@, plan, requirements@, w@, stage as int),
            ),
    {
        broadcast use group_deep;

        let per_stage: u16 = per_stage_of(plan);
        let ghost roots = w@.roots;
        let mut transfers: Transfers = Groups::new();
        let mut runs: Vec<(u16, KernelRun)> = Vec::new();
        assert(deep(runs@) =~= Seq::<(u16, RunModel)>::empty());
        let mut i: usize = 0;
        while i < w.roots.len()
            invariant
                i <= w.roots@.len(),
                transfers_nonempty(transfers@),
                stage_transfers_from(roots, per_stage as int, stage as int, 0, Seq::empty())
                    == stage_transfers_from(
                    roots,
                    per_stage as int,
                    stage as int,
                    i as int,
                    transfers@,
                ),
                stage_runs_from(plan, requirements@, roots, stage as int, 0, Seq::empty())
                    == stage_runs_from(
                    plan,
                    requirements@,
                    roots,
                    stage as int,
                    i as int,
                    deep(runs@),
                ),
            decreases w.roots@.len() - i,
        {
            let root = &w.roots[i];
            assert(roots[i as int] == root@);
            add_root_transfers(root, plan, per_stage, stage, &mut transfers);
            let (_, count) = chunk_of(root, per_stage, stage);
            if count > 0 {
                let run = new_root_run(
                    plan,
                    requirements,
                    root,
                    per_stage,
                    stage,
                    count as u16,
                );
                runs.push((root.tile, run));
            }
            i += 1;
        }
        self.append_ordered_phase(
            &transfers,
            WorkProvenance {
                operation: plan.source,
                value: Some(plan.output),
                reason: WorkReason::OperatorInputs,
            },
            ExchangeOrder::Physical,
        )?;
        if stage == 0 {
            self.append_copies(&w.seeds)?;
        }
        self.append_kernels(runs)
    }

    fn append_sums<M: Target>(
        &mut self,
        target: &M,
        plan: ReductionPlan,
        requirements: &OperatorRequirements,
        groups: &Partials,
        outputs: &Vec<LowShardId>,
    ) -> (r: LowLoweringResult<()>)
        requires
            plan.inner_partitions >= 2,
            forall|g: int|
                0 <= g < groups@.len() ==> (#[trigger] groups@[g]).items.len() > 0,
        ensures
            did(
                r,
                final(self)@,
                append_sums(target, old(self)@, plan, requirements@, groups@, outputs@),
            ),
    {
        broadcast use group_deep;

        let mut w = Sums { roots: Vec::new(), seeds: Vec::new(), results: Vec::new() };
        assert(w@.roots =~= Seq::<RootModel>::empty());
        assert(w@.seeds =~= Seq::<(u16, LocalCopy)>::empty());
        assert(w@.results =~= Seq::<(u16, LocalCopy)>::empty());
        let ghost start = self@;
        let ghost before = w@;
        let mut g: usize = 0;
        while g < groups.entries.len()
            invariant
                g <= groups.entries@.len(),
                all_have_room(w@.roots, plan),
                add_groups_from(target, start, plan, groups@, outputs@, 0, before)
                    == add_groups_from(target, self@, plan, groups@, outputs@, g as int, w@),
            decreases groups.entries@.len() - g,
        {
            let partials = &groups.entries[g].items;
            assert(groups@[g as int].items == deep(partials@));
            assert(deep(partials@)[0] == partials@[0]@);
            let expected: u64 = volume_of(&partials[0].1.extents, 0xffff_ffff_ffff_ffff)?;
            self.add_roots(target, plan, partials, outputs, expected, &mut w)?;
            g += 1;
        }
        let stages: u16 = stages_of(plan);
        let ghost middle = self@;
        let mut stage: u16 = 0;
        while stage < stages
            invariant
                stage <= stages,
                append_stages_from(middle, plan, requirements@, w@, 0) == append_stages_from(
                    self@,
                    plan,
                    requirements@,
                    w@,
                    stage as int,
                ),
            decreases stages - stage,
        {
            self.append_stage(plan, requirements, &w, stage)?;
            stage += 1;
        }
        self.append_copies(&w.results)
    }

    fn append_partials(&mut self, plan: ReductionPlan, w: PartialWork) -> (r: LowLoweringResult<
        Partials,
    >)
        requires
            well_recorded(w@),
        ensures
            match r {
                Ok(partials) => append_partials(old(self)@, plan, w@) == Ok::<
                    StateModel,
                    LowLoweringError,
                >(final(self)@) && partials@ == w@.partials,
                Err(e) => append_partials(old(self)@, plan, w@) == Err::<
                    StateModel,
                    LowLoweringError,
                >(e),
            },
    {
        self.append_ordered_phase(
            &w.transfers,
            WorkProvenance {
                operation: plan.source,
                value: Some(plan.right),
                reason: WorkReason::OperatorInput {
                    input: match plan.orientation {
                        GemmOrientation::Normal => 1,
                        GemmOrientation::Swapped => 0,
                    },
                },
            },
            ExchangeOrder::Semantic,
        )?;
        self.append_copies(&w.copies)?;
        self.append_kernels(w.runs)?;
        Ok(w.partials)
    }

    fn reduce_planned<M: Target>(
        &mut self,
        target: &M,
        plan: ReductionPlan,
        kernels: &GemmRuns,
        requirements: &OperatorRequirements,
        division: Division,
        output: &TensorType,
        lefts: &Vec<LowShardId>,
        rights: &Vec<LowShardId>,
        outputs: &Vec<LowShardId>,
    ) -> (r: LowLoweringResult<()>)
        requires
            plan.inner_block > 0,
            plan.inner_partitions >= 2,
        ensures
            did(
                r,
                final(self)@,
                reduce_planned(
                    target,
                    old(self)@,
                    plan,
                    kernels@,
                    requirements@,
                    division,
                    output@,
                    lefts@,
                    rights@,
                    outputs@,
                ),
            ),
    {
        let (tiling, columns) = divide_columns(
            target,
            output,
            plan.axes,
            division.partitions.columns,
        )?;
        let partial = new_partial_type(
            target,
            output,
            division.orientation,
            division.column_block,
            division.partitions,
            plan.axes,
            tiling,
        );
        let replicas = self.assign_replica_columns(lefts, division.partitions.columns)?;
        let mut w = new_partial_work();
        self.add_partitions(
            target,
            plan,
            kernels,
            lefts,
            &replicas,
            rights,
            outputs,
            &partial,
            &columns,
            &mut w,
        )?;
        let partials = self.append_partials(plan, w)?;
        self.append_sums(target, plan, requirements, &partials, outputs)
    }

    fn reduce_product<M: Target>(
        &mut self,
        target: &M,
        operation: &MidOperation,
        kernels: &GemmRuns,
        division: Division,
        left: MidValueId,
        right: MidValueId,
        lefts: &Vec<LowShardId>,
        rights: &Vec<LowShardId>,
        outputs: &Vec<LowShardId>,
    ) -> (r: LowLoweringResult<()>)
        requires
            operation.results@.len() == 1,
            division.inner_block > 0,
            division.partitions.valid(),
            kernels.requirements.inputs@.len() >= 2,
            lefts@.len() > 0,
            rights@.len() > 0,
            outputs@.len() > 0,
        ensures
            did(
                r,
                final(self)@,
                reduce_product(
                    target,
                    old(self)@,
                    *operation,
                    kernels@,
                    division,
                    left,
                    right,
                    lefts@,
                    rights@,
                    outputs@,
                ),
            ),
    {
        broadcast use group_deep;

        let required = match division.orientation {
            GemmOrientation::Normal => kernels.requirements.duplicate(),
            GemmOrientation::Swapped => exchange_inputs(kernels.requirements),
        };
        assert(required@ == kernel_requirements(division.orientation, kernels@.requirements));
        let left_rank: usize = self.shard(lefts[0])?.extents.len();
        let right_rank: usize = self.shard(rights[0])?.extents.len();
        let output = self.shard(outputs[0])?;
        let output_rank: usize = output.extents.len();
        let output_type = output.tensor_type.duplicate();
        if left_rank < 2 || right_rank < 2 || output_rank < 2 {
            return Err(LowLoweringError::InvalidOperatorPlan);
        }
        let axes = axes_of(division.orientation, left_rank, right_rank, output_rank);
        assert(required@.inputs[0] == required.inputs@[0]@);
        assert(required@.inputs[1] == required.inputs@[1]@);
        let plan = ReductionPlan {
            source: operation.source,
            left,
            right,
            output: operation.results[0],
            orientation: division.orientation,
            axes,
            inner_block: division.inner_block,
            column_block: division.column_block,
            panel_block: panel_block_of(required.inputs[1].format.layout.order),
            slices: required.inputs[0].materialization == OperandMaterialization::DispatchSlices,
            stage_local: required.inputs[1].local_staging == LocalOperandStaging::MatchRemote,
            inner_partitions: division.partitions.inner,
            staging: division.staging,
        };
        let runs = GemmRuns {
            initialize: kernels.initialize,
            accumulate: kernels.accumulate,
            requirements: &required,
        };
        self.reduce_planned(
            target,
            plan,
            &runs,
            kernels.requirements,
            division,
            &output_type,
            lefts,
            rights,
            outputs,
        )
    }

    /// Lowers a product that divides the inner axis over tiles.
    pub fn lower_parallel_reduction_gemm<M: Target>(
        &mut self,
        target: &M,
        operation: &MidOperation,
        kernels: &GemmRuns,
        division: Division,
    ) -> (r: LowLoweringResult<()>)
        ensures
            did(
                r,
                final(self)@,
                lower_parallel_reduction_gemm(
                    target,
                    old(self)@,
                    *operation,
                    kernels@,
                    division,
                ),
            ),
            refuses_reduction(old(self)@, *operation, kernels@, division) ==> final(self)@ == old(
                self,
            )@,
    {
        broadcast use group_deep;

        if operation.inputs.len() != 2 {
            return Err(LowLoweringError::InvalidOperatorPlan);
        }
        if operation.results.len() != 1 {
            return Err(LowLoweringError::ResultArity);
        }
        if division.inner_block == 0 || division.column_block == 0
            || !division.partitions.is_valid() || kernels.requirements.inputs.len() < 2 {
            return Err(LowLoweringError::InvalidOperatorPlan);
        }
        let (left, right) = match division.orientation {
            GemmOrientation::Normal => (operation.inputs[0], operation.inputs[1]),
            GemmOrientation::Swapped => (operation.inputs[1], operation.inputs[0]),
        };
        let lefts = self.value_shards(left)?;
        let rights = self.value_shards(right)?;
        let outputs = self.value_shards(operation.results[0])?;
        self.reduce_product(
            target,
            operation,
            kernels,
            division,
            left,
            right,
            &lefts,
            &rights,
            &outputs,
        )
    }

    /// Lowers a matrix product.
    pub fn lower_blocked_gemm<M: Target>(
        &mut self,
        target: &M,
        operation: &MidOperation,
        initialize: &TileKernelSpec,
        accumulate: &TileKernelSpec,
        inner_block: u32,
        output_column_block: u32,
        orientation: GemmOrientation,
        distribution: GemmDistribution,
        requirements: &OperatorRequirements,
    ) -> (r: LowLoweringResult<()>)
        ensures
            did(
                r,
                final(self)@,
                lower_blocked_gemm(
                    target,
                    old(self)@,
                    *operation,
                    GemmKernels {
                        initialize: initialize@,
                        accumulate: accumulate@,
                        requirements: requirements@,
                    },
                    inner_block,
                    output_column_block,
                    orientation,
                    distribution,
                ),
            ),
    {
        broadcast use group_deep;

        let kernels = GemmRuns { initialize, accumulate, requirements };
        match distribution {
            GemmDistribution::ParallelReduction {
                row_partitions,
                column_partitions,
                inner_partitions,
                result_row_partitions,
                result_column_partitions,
                reduction_staging,
            } => self.lower_parallel_reduction_gemm(
                target,
                operation,
                &kernels,
                Division {
                    inner_block,
                    column_block: output_column_block,
                    partitions: Partitions {
                        rows: row_partitions,
                        columns: column_partitions,
                        inner: inner_partitions,
                        result_rows: result_row_partitions,
                        result_columns: result_column_partitions,
                    },
                    staging: reduction_staging,
                    orientation,
                },
            ),
            GemmDistribution::OutputStationary => {
                if orientation != GemmOrientation::Normal {
                    return Err(LowLoweringError::InvalidOperatorPlan);
                }
                if requirements.inputs.len() >= 2 && is_inner_divided(
                    &requirements.inputs[1].format.layout.tiling.axes,
                ) {
                    assert(requirements@.inputs[1] == requirements.inputs@[1]@);
                    return self.lower_streamed_blocked_gemm(
                        target,
                        operation,
                        &kernels,
                        inner_block,
                        output_column_block,
                    );
                }
                assert(requirements.inputs.len() >= 2 ==> requirements@.inputs[1]
                    == requirements.inputs@[1]@);
                self.lower_resident_gemm(
                    target,
                    operation,
                    &kernels,
                    inner_block,
                    output_column_block,
                    false,
                )
            },
        }
    }
}

} // verus!
