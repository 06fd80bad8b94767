//! Conversions that no plan was selected for: the source is gathered where the
//! result is, and cast there if its precision is another.

use crate::block_packing::{default_copy_policy, policy_between, CopyPolicy};
use crate::conversion::{
    gather_intersections, lower_mapped_views, operation_provenance, provenance_of, retiling_from,
};
use crate::kernels::append_kernel;
use crate::lookup::value_shards;
use crate::low::{
    one_operand, ExchangeOrder, KernelRequirements, KernelRun, LowLoweringError,
    LowLoweringResult, LowShard, LowShardId, MetadataModel, RequirementsModel, RunModel,
    ShardDefinition, ShardModel, TileKernel, ViewModel, WorkProvenance,
};
use crate::mid::{
    plain_requirement, ConversionStrategy, KernelSpec, MidOperation, MidOperationKind,
    OperandRequirement,
};
use crate::model::{Model, group_deep};
use crate::state::{
    did, full_view, push_shard, shard_of, LoweringState, StateModel, Step, StepWith,
};
use crate::target::Target;
use crate::tensor::{FormatModel, Precision, TensorFormat, TensorType, TypeModel};
use vstd::prelude::*;

verus! {

/// How a source is gathered by default.
pub open spec fn default_strategy(from: FormatModel, to: FormatModel) -> ConversionStrategy {
    match policy_between(from.layout.order, to.layout.order) {
        CopyPolicy::DirectRetile => ConversionStrategy::DirectRetile,
        _ => ConversionStrategy::StageLogicalThenTransform,
    }
}

/// The formats of the source and of the result of a conversion.
pub open spec fn converted_formats(s: StateModel, operation: MidOperation) -> Result<
    (FormatModel, FormatModel),
    LowLoweringError,
> {
    if operation.inputs@.len() != 1 {
        Err(LowLoweringError::InvalidConversionPlan)
    } else if operation.results@.len() != 1 {
        Err(LowLoweringError::ResultArity)
    } else {
        match value_shards(s, operation.inputs@[0]) {
            Err(e) => Err(e),
            Ok(sources) => match value_shards(s, operation.results@[0]) {
                Err(e) => Err(e),
                Ok(outputs) => match shard_of(s.shards, sources[0]) {
                    Err(e) => Err(e),
                    Ok(from) => match shard_of(s.shards, outputs[0]) {
                        Err(e) => Err(e),
                        Ok(to) => Ok((from.tensor_type.format, to.tensor_type.format)),
                    },
                },
            },
        }
    }
}

/// The result has another precision, and the operation is there to change it.
pub open spec fn needs_cast(operation: MidOperation, from: FormatModel, to: FormatModel) -> bool {
    operation.kind is CastPrecision && from.precision != to.precision
}

/// Scratch storage beside an output, with its elements in another precision.
pub open spec fn cast_staging(precision: Precision, output: ShardModel) -> ShardModel {
    ShardModel {
        id: LowShardId(0),
        tile: output.tile,
        tensor_type: TypeModel {
            shape: output.tensor_type.shape,
            format: FormatModel { precision, layout: output.tensor_type.format.layout },
        },
        extents: output.extents,
        definition: ShardDefinition::Staging,
    }
}

/// `done` followed by scratch storage for the outputs from `k` on.
pub open spec fn push_cast_staging_from(
    s: StateModel,
    precision: Precision,
    outputs: Seq<LowShardId>,
    k: int,
    done: Seq<LowShardId>,
) -> StepWith<Seq<LowShardId>>
    decreases outputs.len() - k,
{
    if k >= outputs.len() {
        Ok((s, done))
    } else {
        match shard_of(s.shards, outputs[k]) {
            Err(e) => Err(e),
            Ok(output) => match push_shard(s, cast_staging(precision, output)) {
                Err(e) => Err(e),
                Ok((next, id)) => push_cast_staging_from(
                    next,
                    precision,
                    outputs,
                    k + 1,
                    done.push(id),
                ),
            },
        }
    }
}

/// The run that casts scratch storage into its output.
pub open spec fn cast_run(
    precision: Precision,
    to: FormatModel,
    input: ViewModel,
    output: ViewModel,
    provenance: WorkProvenance,
) -> RunModel {
    RunModel {
        metadata: MetadataModel {
            provenance,
            kernel: KernelSpec::Cast { from: precision, to: to.precision },
            requirements: RequirementsModel::Conversion {
                input: plain_requirement(FormatModel { precision, layout: to.layout }, 2),
                output: plain_requirement(to, 2),
                memory_relations: Seq::empty(),
            },
        },
        inputs: seq![seq![input]],
        output,
    }
}

/// Casts the scratch storage from `k` on, each into its output.
pub open spec fn cast_from(
    s: StateModel,
    precision: Precision,
    scratch: Seq<LowShardId>,
    outputs: Seq<LowShardId>,
    provenance: WorkProvenance,
    k: int,
) -> Step
    decreases scratch.len() - k,
{
    if k >= scratch.len() {
        Ok(s)
    } else {
        match full_view(s.shards, scratch[k]) {
            Err(e) => Err(e),
            Ok(from) => match shard_of(s.shards, outputs[k]) {
                Err(e) => Err(e),
                Ok(to) => match append_kernel(
                    s,
                    to.tile,
                    cast_run(
                        precision,
                        to.tensor_type.format,
                        from,
                        ViewModel { shard: outputs[k], extents: to.extents },
                        provenance,
                    ),
                ) {
                    Err(e) => Err(e),
                    Ok(next) => cast_from(
                        next,
                        precision,
                        scratch,
                        outputs,
                        provenance,
                        k + 1,
                    ),
                },
            },
        }
    }
}

/// Gathers a source beside its result, and casts it there.
pub open spec fn gather_and_cast<M: Target>(
    target: &M,
    s: StateModel,
    operation: MidOperation,
    sources: Seq<LowShardId>,
    outputs: Seq<LowShardId>,
    precision: Precision,
    strategy: ConversionStrategy,
) -> Step {
    match push_cast_staging_from(s, precision, outputs, 0, Seq::empty()) {
        Err(e) => Err(e),
        Ok((a, scratch)) => match retiling_from(a.shards, sources, scratch, 0, Seq::empty()) {
            Err(e) => Err(e),
            Ok(mappings) => match lower_mapped_views(
                target,
                a,
                mappings,
                strategy == ConversionStrategy::StageLogicalThenTransform,
                ExchangeOrder::Semantic,
                provenance_of(operation),
            ) {
                Err(e) => Err(e),
                Ok(b) => cast_from(
                    b,
                    precision,
                    scratch,
                    outputs,
                    provenance_of(operation),
                    0,
                ),
            },
        },
    }
}

/// A conversion without a plan. Elements that keep their precision are gathered
/// in the result itself.
pub open spec fn lower_unplanned_conversion<M: Target>(
    target: &M,
    s: StateModel,
    operation: MidOperation,
) -> Step {
    match converted_formats(s, operation) {
        Err(e) => Err(e),
        Ok((from, to)) => if needs_cast(operation, from, to) {
            gather_and_cast(
                target,
                s,
                operation,
                value_shards(s, operation.inputs@[0])->Ok_0,
                value_shards(s, operation.results@[0])->Ok_0,
                from.precision,
                default_strategy(from, to),
            )
        } else {
            gather_intersections(target, s, operation, default_strategy(from, to))
        },
    }
}

/// A scratch shard is on the tile of its output.
pub open spec fn stands_beside(
    shards: Seq<ShardModel>,
    scratch: LowShardId,
    output: LowShardId,
) -> bool {
    &&& scratch.0 < shards.len()
    &&& output.0 < shards.len()
    &&& shards[scratch.0 as int].tile == shards[output.0 as int].tile
}

/// All scratch shards are on the tiles of their outputs.
pub open spec fn staged_beside(
    shards: Seq<ShardModel>,
    scratch: Seq<LowShardId>,
    outputs: Seq<LowShardId>,
) -> bool {
    &&& scratch.len() <= outputs.len()
    &&& forall|i: int|
        0 <= i < scratch.len() ==> stands_beside(shards, #[trigger] scratch[i], outputs[i])
}

// ---------------------------------------------------------------- carrying out

impl LoweringState {
    fn push_cast_staging(&mut self, precision: Precision, outputs: &Vec<LowShardId>) -> (r:
        LowLoweringResult<Vec<LowShardId>>)
        ensures
            match r {
                Ok(scratch) => push_cast_staging_from(
                    old(self)@,
                    precision,
                    outputs@,
                    0,
                    Seq::empty(),
                ) == Ok::<(StateModel, Seq<LowShardId>), LowLoweringError>(
                    (final(self)@, scratch@),
                ) && scratch@.len() == outputs@.len(),
                Err(e) => push_cast_staging_from(
                    old(self)@,
                    precision,
                    outputs@,
                    0,
                    Seq::empty(),
                ) == Err::<(StateModel, Seq<LowShardId>), LowLoweringError>(e),
            },
    {
        let ghost start = self@;
        let mut scratch: Vec<LowShardId> = Vec::new();
        assert(scratch@ =~= Seq::<LowShardId>::empty());
        let mut k: usize = 0;
        while k < outputs.len()
            invariant
                k <= outputs@.len(),
                scratch@.len() == k,
                push_cast_staging_from(start, precision, outputs@, 0, Seq::empty())
                    == push_cast_staging_from(
                    self@,
                    precision,
                    outputs@,
                    k as int,
                    scratch@,
                ),
            decreases outputs@.len() - k,
        {
            let output = match self.shard(outputs[k]) {
                Ok(output) => output.duplicate(),
                Err(e) => {
                    return Err(e);
                },
            };
            let ghost model = output@;
            let staging = LowShard {
                id: LowShardId(0),
                tile: output.tile,
                tensor_type: TensorType {
                    shape: output.tensor_type.shape,
                    format: TensorFormat {
                        precision,
                        layout: output.tensor_type.format.layout,
                    },
                },
                extents: output.extents,
                definition: ShardDefinition::Staging,
            };
            assert(staging@ == cast_staging(precision, model));
            let id = self.push_shard(staging)?;
            scratch.push(id);
            k += 1;
        }
        Ok(scratch)
    }

    fn cast_staged(
        &mut self,
        precision: Precision,
        scratch: &Vec<LowShardId>,
        outputs: &Vec<LowShardId>,
        provenance: WorkProvenance,
    ) -> (r: LowLoweringResult<()>)
        requires
            scratch@.len() == outputs@.len(),
        ensures
            did(
                r,
                final(self)@,
                cast_from(old(self)@, precision, scratch@, outputs@, provenance, 0),
            ),
    {
        broadcast use group_deep;

        let ghost start = self@;
        let mut k: usize = 0;
        while k < scratch.len()
            invariant
                k <= scratch@.len(),
                cast_from(start, precision, scratch@, outputs@, provenance, 0) == cast_from(
                    self@,
                    precision,
                    scratch@,
                    outputs@,
                    provenance,
                    k as int,
                ),
            decreases scratch@.len() - k,
        {
            let from = self.full_view(scratch[k])?;
            let output = self.full_view(outputs[k])?;
            let (tile, format) = match self.shard(outputs[k]) {
                Ok(to) => (to.tile, to.tensor_type.format.duplicate()),
                Err(e) => {
                    return Err(e);
                },
            };
            let ghost expected = cast_run(precision, format@, from@, output@, provenance);
            let input = TensorFormat { precision, layout: format.layout.duplicate() };
            let to = format.precision;
            let run = KernelRun::new(
                provenance,
                TileKernel::Planned(KernelSpec::Cast { from: precision, to }),
                one_operand(from),
                output,
                KernelRequirements::Conversion {
                    input: OperandRequirement::new(input, 2),
                    output: OperandRequirement::new(format, 2),
                    memory_relations: Vec::new(),
                },
            );
            assert(run@ == expected);
            self.append_kernel(tile, run)?;
            k += 1;
        }
        Ok(())
    }

    /// Gathers the source of a conversion where its result is, and casts it
    /// there if its precision is another.
    pub fn lower_unplanned_conversion<M: Target>(
        &mut self,
        target: &M,
        operation: &MidOperation,
    ) -> (r: LowLoweringResult<()>)
        ensures
            did(
                r,
                final(self)@,
                lower_unplanned_conversion(target, old(self)@, *operation),
            ),
    {
        if operation.inputs.len() != 1 {
            return Err(LowLoweringError::InvalidConversionPlan);
        }
        if operation.results.len() != 1 {
            return Err(LowLoweringError::ResultArity);
        }
        let sources = self.value_shards(operation.inputs[0])?;
        let outputs = self.value_shards(operation.results[0])?;
        let from = match self.shard(sources[0]) {
            Ok(shard) => shard.tensor_type.format.duplicate(),
            Err(e) => {
                return Err(e);
            },
        };
        let to = match self.shard(outputs[0]) {
            Ok(shard) => shard.tensor_type.format.duplicate(),
            Err(e) => {
                return Err(e);
            },
        };
        let strategy = match default_copy_policy(&from.layout, &to.layout) {
            CopyPolicy::DirectRetile => ConversionStrategy::DirectRetile,
            _ => ConversionStrategy::StageLogicalThenTransform,
        };
        let casts = match &operation.kind {
            MidOperationKind::CastPrecision => from.precision != to.precision,
            _ => false,
        };
        if !casts {
            return self.gather_intersections(target, operation, strategy);
        }
        let scratch = self.push_cast_staging(from.precision, &outputs)?;
        let mappings = self.retiling(&sources, &scratch)?;
        let provenance = operation_provenance(operation);
        let logical = match strategy {
            ConversionStrategy::StageLogicalThenTransform => true,
            _ => false,
        };
        self.lower_mapped_views(
            target,
            mappings,
            logical,
            ExchangeOrder::Semantic,
            provenance,
        )?;
        self.cast_staged(from.precision, &scratch, &outputs, provenance)
    }
}

} // verus!
