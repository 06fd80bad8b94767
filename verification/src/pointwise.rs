//! Operators that compute every output shard from corresponding elements of
//! their inputs.

use crate::kernels::append_kernels_from;
use crate::lookup::{resides, value_shards};
use crate::low::{
    ExchangeOrder, KernelOperand, KernelRequirements, KernelRun, LowLoweringError,
    LowLoweringResult, LowShard, LowShardId, MetadataModel, RequirementsModel, RunModel,
    ShardDefinition, ShardModel, ShardView, TileKernel, ViewModel, WorkProvenance, WorkReason,
};
use crate::mid::{
    KernelModel, MidOperation, MidValueId, OperatorRequirements, OperatorRequirementsModel,
    PointwiseInputMapping, TileKernelSpec,
};
use crate::model::{Model, copy_all, deep, group_deep};
use crate::order::Groups;
use crate::phase::{
    add_transfer, add_transfer_to, append_ordered_phase, transfers_nonempty,
};
use crate::state::{
    did, found, found_all, push_shard, shard_of, LoweringState, StateModel, Step, StepWith,
    Transfers, TransfersModel,
};
use crate::tensor::{same_extents, ShardExtent};
use vstd::prelude::*;

verus! {

/// The elements of one source axis that an output range reads. An axis with
/// one element is read for every output element.
pub open spec fn broadcast_axis(
    extent: ShardExtent,
    dimension: u32,
    required: ShardExtent,
) -> Option<ShardExtent> {
    if dimension == 1 {
        if extent.start != 0 || extent.logical_end == 0 {
            None
        } else {
            Some(ShardExtent { axis: extent.axis, start: 0, logical_end: 1, physical_end: 1 })
        }
    } else if extent.start > required.start || extent.logical_end < required.logical_end {
        None
    } else {
        Some(
            ShardExtent {
                axis: extent.axis,
                start: required.start,
                logical_end: required.logical_end,
                physical_end: required.logical_end,
            },
        )
    }
}

/// The part of a source that an axis of the output reads: source axes stand for
/// the last axes of the output.
pub open spec fn broadcast_of(source: ShardModel, output: Seq<ShardExtent>, axis: int) -> Option<
    ShardExtent,
> {
    broadcast_axis(
        source.extents[axis],
        source.tensor_type.shape[axis],
        output[axis + output.len() - source.extents.len()],
    )
}

/// A source shard holds all that an output rectangle reads.
pub open spec fn broadcasts_to(source: ShardModel, output: Seq<ShardExtent>) -> bool {
    &&& source.extents.len() <= output.len()
    &&& source.extents.len() <= source.tensor_type.shape.len()
    &&& forall|axis: int|
        0 <= axis < source.extents.len() ==> #[trigger] broadcast_of(source, output, axis) is Some
}

/// The part of a source shard that an output rectangle reads, if it holds it.
pub open spec fn broadcast_view_for_extents(
    shards: Seq<ShardModel>,
    source: LowShardId,
    output: Seq<ShardExtent>,
) -> Option<ViewModel> {
    if source.0 < shards.len() && broadcasts_to(shards[source.0 as int], output) {
        Some(
            ViewModel {
                shard: source,
                extents: Seq::new(
                    shards[source.0 as int].extents.len(),
                    |axis: int| broadcast_of(shards[source.0 as int], output, axis)->Some_0,
                ),
            },
        )
    } else {
        None
    }
}

/// The view of the first listed shard from `k` on that serves the output.
pub open spec fn pointwise_source_from(
    shards: Seq<ShardModel>,
    ids: Seq<LowShardId>,
    mapping: PointwiseInputMapping,
    tile: u16,
    output: Seq<ShardExtent>,
    k: int,
) -> Result<ViewModel, LowLoweringError>
    decreases ids.len() - k,
{
    if k >= ids.len() {
        Err(LowLoweringError::InvalidOperatorPlan)
    } else {
        match mapping {
            PointwiseInputMapping::BroadcastToOutput => match broadcast_view_for_extents(
                shards,
                ids[k],
                output,
            ) {
                Some(view) => Ok(view),
                None => pointwise_source_from(shards, ids, mapping, tile, output, k + 1),
            },
            PointwiseInputMapping::TileLocal => if resides(shards, ids[k], tile)
                && shards[ids[k].0 as int].extents == output {
                Ok(ViewModel { shard: ids[k], extents: output })
            } else {
                pointwise_source_from(shards, ids, mapping, tile, output, k + 1)
            },
        }
    }
}

/// `done` followed by the views that one output reads of the inputs from `k` on.
pub open spec fn pointwise_sources_from(
    s: StateModel,
    inputs: Seq<MidValueId>,
    mapping: PointwiseInputMapping,
    tile: u16,
    output: Seq<ShardExtent>,
    k: int,
    done: Seq<ViewModel>,
) -> Result<Seq<ViewModel>, LowLoweringError>
    decreases inputs.len() - k,
{
    if k >= inputs.len() {
        Ok(done)
    } else {
        match value_shards(s, inputs[k]) {
            Err(e) => Err(e),
            Ok(ids) => match pointwise_source_from(s.shards, ids, mapping, tile, output, 0) {
                Err(e) => Err(e),
                Ok(view) => pointwise_sources_from(
                    s,
                    inputs,
                    mapping,
                    tile,
                    output,
                    k + 1,
                    done.push(view),
                ),
            },
        }
    }
}

/// Storage on a tile that receives a remote view.
pub open spec fn receiving_shard(source: ShardModel, extents: Seq<ShardExtent>, tile: u16) -> ShardModel {
    ShardModel {
        id: LowShardId(0),
        tile,
        tensor_type: source.tensor_type,
        extents,
        definition: ShardDefinition::ExchangeStaging,
    }
}

/// Makes the views from `k` on resident on a tile: remote ones are received
/// into new storage. Hands back the transfers, and the operands after `done`.
pub open spec fn receive_from(
    s: StateModel,
    tile: u16,
    views: Seq<ViewModel>,
    k: int,
    transfers: TransfersModel,
    done: Seq<Seq<ViewModel>>,
) -> StepWith<(TransfersModel, Seq<Seq<ViewModel>>)>
    decreases views.len() - k,
{
    if k >= views.len() {
        Ok((s, (transfers, done)))
    } else {
        match shard_of(s.shards, views[k].shard) {
            Err(e) => Err(e),
            Ok(from) => if from.tile == tile {
                receive_from(s, tile, views, k + 1, transfers, done.push(seq![views[k]]))
            } else {
                match push_shard(s, receiving_shard(from, views[k].extents, tile)) {
                    Err(e) => Err(e),
                    Ok((next, copy)) => {
                        let received = ViewModel { shard: copy, extents: views[k].extents };
                        receive_from(
                            next,
                            tile,
                            views,
                            k + 1,
                            add_transfer(transfers, views[k], received),
                            done.push(seq![received]),
                        )
                    },
                }
            },
        }
    }
}

/// Some axis of the rectangle is empty.
pub open spec fn is_empty(extents: Seq<ShardExtent>) -> bool {
    exists|i: int|
        0 <= i < extents.len() && (#[trigger] extents[i]).start == extents[i].physical_end
}

/// A run that an operator's plan requires.
pub open spec fn operator_run(
    provenance: WorkProvenance,
    kernel: KernelModel,
    inputs: Seq<Seq<ViewModel>>,
    output: ViewModel,
    requirements: OperatorRequirementsModel,
) -> RunModel {
    RunModel {
        metadata: MetadataModel {
            provenance,
            kernel,
            requirements: RequirementsModel::Operator(requirements),
        },
        inputs,
        output,
    }
}

pub fn new_operator_run(
    provenance: WorkProvenance,
    kernel: TileKernelSpec,
    inputs: Vec<KernelOperand>,
    output: ShardView,
    requirements: &OperatorRequirements,
) -> (r: KernelRun)
    ensures
        r@ == operator_run(provenance, kernel@, deep(inputs@), output@, requirements@),
{
    KernelRun::new(
        provenance,
        TileKernel::Planned(kernel),
        inputs,
        output,
        KernelRequirements::Operator(requirements.duplicate()),
    )
}

/// Prepares the outputs from `k` on: residency of what they read, and a run for
/// each that is not empty.
pub open spec fn pointwise_from(
    s: StateModel,
    operation: MidOperation,
    kernel: KernelModel,
    mapping: PointwiseInputMapping,
    requirements: OperatorRequirementsModel,
    outputs: Seq<LowShardId>,
    k: int,
    transfers: TransfersModel,
    runs: Seq<(u16, RunModel)>,
) -> StepWith<(TransfersModel, Seq<(u16, RunModel)>)>
    decreases outputs.len() - k,
{
    if k >= outputs.len() {
        Ok((s, (transfers, runs)))
    } else {
        match shard_of(s.shards, outputs[k]) {
            Err(e) => Err(e),
            Ok(to) => if is_empty(to.extents) {
                pointwise_from(
                    s,
                    operation,
                    kernel,
                    mapping,
                    requirements,
                    outputs,
                    k + 1,
                    transfers,
                    runs,
                )
            } else {
                match pointwise_sources_from(
                    s,
                    operation.inputs@,
                    mapping,
                    to.tile,
                    to.extents,
                    0,
                    Seq::empty(),
                ) {
                    Err(e) => Err(e),
                    Ok(views) => match receive_from(
                        s,
                        to.tile,
                        views,
                        0,
                        transfers,
                        Seq::empty(),
                    ) {
                        Err(e) => Err(e),
                        Ok((next, (more, inputs))) => pointwise_from(
                            next,
                            operation,
                            kernel,
                            mapping,
                            requirements,
                            outputs,
                            k + 1,
                            more,
                            runs.push(
                                (
                                    to.tile,
                                    operator_run(
                                        WorkProvenance {
                                            operation: operation.source,
                                            value: Some(operation.results@[0]),
                                            reason: WorkReason::OperatorKernel,
                                        },
                                        kernel,
                                        inputs,
                                        ViewModel { shard: outputs[k], extents: to.extents },
                                        requirements,
                                    ),
                                ),
                            ),
                        ),
                    },
                }
            },
        }
    }
}

/// A pointwise operator: one exchange of what is not resident, then one run for
/// each nonempty output shard.
pub open spec fn lower_pointwise(
    s: StateModel,
    operation: MidOperation,
    kernel: KernelModel,
    mapping: PointwiseInputMapping,
    requirements: OperatorRequirementsModel,
) -> Step {
    if operation.results@.len() != 1 {
        Err(LowLoweringError::ResultArity)
    } else {
        match value_shards(s, operation.results@[0]) {
            Err(e) => Err(e),
            Ok(outputs) => match pointwise_from(
                s,
                operation,
                kernel,
                mapping,
                requirements,
                outputs,
                0,
                Seq::empty(),
                Seq::empty(),
            ) {
                Err(e) => Err(e),
                Ok((next, (transfers, runs))) => match append_ordered_phase(
                    next,
                    transfers,
                    WorkProvenance {
                        operation: operation.source,
                        value: None,
                        reason: WorkReason::OperatorInputs,
                    },
                    ExchangeOrder::Semantic,
                ) {
                    Err(e) => Err(e),
                    Ok(exchanged) => append_kernels_from(exchanged, runs, 0),
                },
            },
        }
    }
}

fn broadcast_axis_of(extent: ShardExtent, dimension: u32, required: ShardExtent) -> (r: Option<
    ShardExtent,
>)
    ensures
        r == broadcast_axis(extent, dimension, required),
{
    if dimension == 1 {
        if extent.start != 0 || extent.logical_end == 0 {
            None
        } else {
            Some(ShardExtent { axis: extent.axis, start: 0, logical_end: 1, physical_end: 1 })
        }
    } else if extent.start > required.start || extent.logical_end < required.logical_end {
        None
    } else {
        Some(
            ShardExtent {
                axis: extent.axis,
                start: required.start,
                logical_end: required.logical_end,
                physical_end: required.logical_end,
            },
        )
    }
}

fn is_empty_rectangle(extents: &Vec<ShardExtent>) -> (r: bool)
    ensures
        r == is_empty(extents@),
{
    let mut i: usize = 0;
    while i < extents.len()
        invariant
            i <= extents@.len(),
            forall|k: int|
                0 <= k < i ==> (#[trigger] extents@[k]).start != extents@[k].physical_end,
        decreases extents@.len() - i,
    {
        if extents[i].start == extents[i].physical_end {
            assert(extents@[i as int].start == extents@[i as int].physical_end);
            return true;
        }
        i += 1;
    }
    false
}

impl LoweringState {
    pub fn broadcast_view_for_extents(&self, source: LowShardId, output: &Vec<ShardExtent>) -> (r: Option<
        ShardView,
    >)
        ensures
            match r {
                Some(view) => broadcast_view_for_extents(self@.shards, source, output@) == Some(view@),
                None => broadcast_view_for_extents(self@.shards, source, output@) is None,
            },
    {
        broadcast use group_deep;

        if (source.0 as usize) >= self.shards.len() {
            return None;
        }
        let shard = &self.shards[source.0 as usize];
        let rank = shard.extents.len();
        if rank > output.len() || shard.tensor_type.shape.0.len() < rank {
            return None;
        }
        let shift = output.len() - rank;
        let mut extents: Vec<ShardExtent> = Vec::new();
        let mut axis: usize = 0;
        while axis < rank
            invariant
                axis <= rank,
                extents@.len() == axis,
                forall|k: int|
                    0 <= k < axis ==> #[trigger] broadcast_of(shard@, output@, k) == Some(
                        extents@[k],
                    ),
            decreases rank - axis,
        {
            let part = broadcast_axis_of(
                shard.extents[axis],
                shard.tensor_type.shape.0[axis],
                output[axis + shift],
            );
            assert(part == broadcast_of(shard@, output@, axis as int));
            match part {
                Some(extent) => {
                    extents.push(extent);
                },
                None => {
                    return None;
                },
            }
            axis += 1;
        }
        assert(extents@ =~= Seq::new(
            rank as nat,
            |axis: int| broadcast_of(shard@, output@, axis)->Some_0,
        ));
        Some(ShardView { shard: source, extents })
    }

    fn pointwise_source(
        &self,
        ids: &Vec<LowShardId>,
        mapping: PointwiseInputMapping,
        tile: u16,
        output: &Vec<ShardExtent>,
    ) -> (r: LowLoweringResult<ShardView>)
        ensures
            found(r, pointwise_source_from(self@.shards, ids@, mapping, tile, output@, 0)),
    {
        broadcast use group_deep;

        let mut k: usize = 0;
        while k < ids.len()
            invariant
                k <= ids@.len(),
                pointwise_source_from(self@.shards, ids@, mapping, tile, output@, 0)
                    == pointwise_source_from(
                    self@.shards,
                    ids@,
                    mapping,
                    tile,
                    output@,
                    k as int,
                ),
            decreases ids@.len() - k,
        {
            match mapping {
                PointwiseInputMapping::BroadcastToOutput => {
                    match self.broadcast_view_for_extents(ids[k], output) {
                        Some(view) => {
                            return Ok(view);
                        },
                        None => {},
                    }
                },
                PointwiseInputMapping::TileLocal => {
                    if self.resides(ids[k], tile) && same_extents(
                        self.shards[ids[k].0 as usize].extents.as_slice(),
                        output.as_slice(),
                    ) {
                        return Ok(
                            ShardView { shard: ids[k], extents: copy_all(output.as_slice()) },
                        );
                    }
                },
            }
            k += 1;
        }
        Err(LowLoweringError::InvalidOperatorPlan)
    }

    fn pointwise_sources(
        &self,
        inputs: &Vec<MidValueId>,
        mapping: PointwiseInputMapping,
        tile: u16,
        output: &Vec<ShardExtent>,
    ) -> (r: LowLoweringResult<Vec<ShardView>>)
        ensures
            found_all(
                r,
                pointwise_sources_from(
                    self@,
                    inputs@,
                    mapping,
                    tile,
                    output@,
                    0,
                    Seq::empty(),
                ),
            ),
    {
        broadcast use group_deep;

        let mut views: Vec<ShardView> = Vec::new();
        let mut k: usize = 0;
        while k < inputs.len()
            invariant
                k <= inputs@.len(),
                pointwise_sources_from(self@, inputs@, mapping, tile, output@, 0, Seq::empty())
                    == pointwise_sources_from(
                    self@,
                    inputs@,
                    mapping,
                    tile,
                    output@,
                    k as int,
                    deep(views@),
                ),
            decreases inputs@.len() - k,
        {
            let ids = self.value_shards(inputs[k])?;
            let view = self.pointwise_source(&ids, mapping, tile, output)?;
            views.push(view);
            k += 1;
        }
        Ok(views)
    }

    fn receive(&mut self, tile: u16, views: &Vec<ShardView>, transfers: &mut Transfers) -> (r:
        LowLoweringResult<Vec<KernelOperand>>)
        ensures
            match r {
                Ok(operands) => receive_from(
                    old(self)@,
                    tile,
                    deep(views@),
                    0,
                    old(transfers)@,
                    Seq::empty(),
                ) == Ok::<
                    (StateModel, (TransfersModel, Seq<Seq<ViewModel>>)),
                    LowLoweringError,
                >((final(self)@, (final(transfers)@, deep(operands@)))),
                Err(e) => receive_from(
                    old(self)@,
                    tile,
                    deep(views@),
                    0,
                    old(transfers)@,
                    Seq::empty(),
                ) == Err::<(StateModel, (TransfersModel, Seq<Seq<ViewModel>>)), LowLoweringError>(
                    e,
                ),
            },
            transfers_nonempty(old(transfers)@) ==> transfers_nonempty(final(transfers)@),
    {
        broadcast use group_deep;

        let ghost model = deep(views@);
        let ghost start = self@;
        let ghost before = transfers@;
        let mut operands: Vec<KernelOperand> = Vec::new();
        let mut k: usize = 0;
        while k < views.len()
            invariant
                k <= views@.len(),
                receive_from(start, tile, model, 0, before, Seq::empty()) == receive_from(
                    self@,
                    tile,
                    model,
                    k as int,
                    transfers@,
                    deep(operands@),
                ),
                transfers_nonempty(before) ==> transfers_nonempty(transfers@),
            decreases views@.len() - k,
        {
            let view = &views[k];
            assert(model[k as int] == view@);
            let from = self.shard(view.shard)?;
            if from.tile == tile {
                operands.push(KernelOperand::of(view.duplicate()));
            } else {
                let ghost source = from@;
                let copy = LowShard {
                    id: LowShardId(0),
                    tile,
                    tensor_type: from.tensor_type.duplicate(),
                    extents: copy_all(view.extents.as_slice()),
                    definition: ShardDefinition::ExchangeStaging,
                };
                assert(copy@ == receiving_shard(source, view@.extents, tile));
                let id = self.push_shard(copy)?;
                let received = ShardView { shard: id, extents: copy_all(view.extents.as_slice()) };
                add_transfer_to(transfers, view.duplicate(), received.duplicate());
                operands.push(KernelOperand::of(received));
            }
            k += 1;
        }
        Ok(operands)
    }

    pub fn lower_pointwise(
        &mut self,
        operation: &MidOperation,
        kernel: &TileKernelSpec,
        mapping: PointwiseInputMapping,
        requirements: &OperatorRequirements,
    ) -> (r: LowLoweringResult<()>)
        ensures
            did(
                r,
                final(self)@,
                lower_pointwise(old(self)@, *operation, kernel@, mapping, requirements@),
            ),
    {
        broadcast use group_deep;

        if operation.results.len() != 1 {
            return Err(LowLoweringError::ResultArity);
        }
        let result = operation.results[0];
        let outputs = self.value_shards(result)?;
        let ghost start = self@;
        let mut transfers: Transfers = Groups::new();
        let mut runs: Vec<(u16, KernelRun)> = Vec::new();
        let mut k: usize = 0;
        while k < outputs.len()
            invariant
                k <= outputs@.len(),
                pointwise_from(
                    start,
                    *operation,
                    kernel@,
                    mapping,
                    requirements@,
                    outputs@,
                    0,
                    Seq::empty(),
                    Seq::empty(),
                ) == pointwise_from(
                    self@,
                    *operation,
                    kernel@,
                    mapping,
                    requirements@,
                    outputs@,
                    k as int,
                    transfers@,
                    deep(runs@),
                ),
                transfers_nonempty(transfers@),
            decreases outputs@.len() - k,
        {
            let shard = self.shard(outputs[k])?;
            if !is_empty_rectangle(&shard.extents) {
                let tile: u16 = shard.tile;
                let extents = copy_all(shard.extents.as_slice());
                let views = self.pointwise_sources(&operation.inputs, mapping, tile, &extents)?;
                let operands = self.receive(tile, &views, &mut transfers)?;
                let run = new_operator_run(
                    WorkProvenance {
                        operation: operation.source,
                        value: Some(result),
                        reason: WorkReason::OperatorKernel,
                    },
                    kernel.duplicate(),
                    operands,
                    ShardView { shard: outputs[k], extents },
                    requirements,
                );
                runs.push((tile, run));
            }
            k += 1;
        }
        self.append_ordered_phase(
            &transfers,
            WorkProvenance {
                operation: operation.source,
                value: None,
                reason: WorkReason::OperatorInputs,
            },
            ExchangeOrder::Semantic,
        )?;
        self.append_kernels(runs)
    }
}

} // verus!
