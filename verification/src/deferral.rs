//! Values that are not materialized: their only consumer reads the source.

use crate::conversion::unpack_amp;
use crate::lookup::value_shards;
use crate::low::{
    LowLoweringError, LowLoweringResult, LowShardId, ShardDefinition, WorkProvenance, WorkReason,
};
use crate::mid::{
    DeferredInput, DeferredOutput, DeferredTransform, MidOperation, MidOperationKind, MidValueId,
    OperandMaterialization, OperatorPlan,
};
use crate::model::group_deep;
use crate::state::{
    gave, redefine, shard_of, DeferredModel, DeferredValue, LoweringState, StateModel, Step,
    StepWith,
};
use crate::target::Target;
use crate::tensor::{AmpOrder, ElementOrder};
use vstd::prelude::*;

verus! {

// ---------------------------------------------------------------- uses

/// How often a value occurs in a list from position `i` on.
pub open spec fn occurrences(values: Seq<MidValueId>, value: MidValueId, i: int) -> nat
    decreases values.len() - i,
{
    if i >= values.len() {
        0
    } else {
        occurrences(values, value, i + 1) + if values[i] == value {
            1nat
        } else {
            0
        }
    }
}

/// How often the operations from `k` on take a value as an input.
pub open spec fn input_uses(operations: Seq<MidOperation>, value: MidValueId, k: int) -> nat
    decreases operations.len() - k,
{
    if k >= operations.len() {
        0
    } else {
        occurrences(operations[k].inputs@, value, 0) + input_uses(operations, value, k + 1)
    }
}

/// The value has exactly one use: as an input of an operation, or as a value
/// that the region hands back.
pub open spec fn used_once(
    operations: Seq<MidOperation>,
    retained: Seq<MidValueId>,
    value: MidValueId,
) -> bool {
    input_uses(operations, value, 0) + occurrences(retained, value, 0) == 1
}

/// Some operation is planned to read the value `producer` through the transform
/// of `source`.
pub open spec fn claimed(
    operations: Seq<MidOperation>,
    producer: MidValueId,
    source: MidValueId,
    transform: DeferredTransform,
) -> bool {
    exists|k: int|
        0 <= k < operations.len() && (#[trigger] operations[k]).operator_plan is Some
            && operations[k].operator_plan->Some_0.deferred_inputs@.contains(
            Some(DeferredInput { producer, source, transform }),
        )
}

fn count_occurrences(values: &Vec<MidValueId>, value: MidValueId, limit: u8) -> (r: u8)
    requires
        limit <= 2,
    ensures
        r as nat == if occurrences(values@, value, 0) < limit {
            occurrences(values@, value, 0)
        } else {
            limit as nat
        },
{
    let mut count: u8 = 0;
    let mut i: usize = values.len();
    while i > 0
        invariant
            i <= values@.len(),
            count as nat == if occurrences(values@, value, i as int) < limit {
                occurrences(values@, value, i as int)
            } else {
                limit as nat
            },
        decreases i,
    {
        i -= 1;
        if values[i] == value && count < limit {
            count += 1;
        }
    }
    count
}

fn is_used_once(operations: &Vec<MidOperation>, retained: &Vec<MidValueId>, value: MidValueId) -> (r:
    bool)
    ensures
        r == used_once(operations@, retained@, value),
{
    let mut count: u8 = 0;
    let mut k: usize = operations.len();
    while k > 0
        invariant
            k <= operations@.len(),
            count as nat == if input_uses(operations@, value, k as int) < 2 {
                input_uses(operations@, value, k as int)
            } else {
                2
            },
        decreases k,
    {
        k -= 1;
        let more: u8 = count_occurrences(&operations[k].inputs, value, 2);
        count = if count + more > 2 {
            2
        } else {
            count + more
        };
    }
    let more: u8 = count_occurrences(retained, value, 2);
    count + more == 1
}

fn is_claimed_by(
    plan: &OperatorPlan,
    producer: MidValueId,
    source: MidValueId,
    transform: DeferredTransform,
) -> (r: bool)
    ensures
        r == plan.deferred_inputs@.contains(Some(DeferredInput { producer, source, transform })),
{
    let ghost wanted = Some(DeferredInput { producer, source, transform });
    let mut i: usize = 0;
    while i < plan.deferred_inputs.len()
        invariant
            i <= plan.deferred_inputs@.len(),
            forall|j: int| 0 <= j < i ==> plan.deferred_inputs@[j] != wanted,
        decreases plan.deferred_inputs@.len() - i,
    {
        match plan.deferred_inputs[i] {
            Some(input) => {
                if input.producer == producer && input.source == source && input.transform
                    == transform {
                    assert(plan.deferred_inputs@[i as int] == wanted);
                    return true;
                }
            },
            None => {},
        }
        i += 1;
    }
    false
}

fn is_claimed(
    operations: &Vec<MidOperation>,
    producer: MidValueId,
    source: MidValueId,
    transform: DeferredTransform,
) -> (r: bool)
    ensures
        r == claimed(operations@, producer, source, transform),
{
    let ghost wanted = Some(DeferredInput { producer, source, transform });
    let mut k: usize = 0;
    while k < operations.len()
        invariant
            k <= operations@.len(),
            forall|j: int|
                0 <= j < k && (#[trigger] operations@[j]).operator_plan is Some
                    ==> !operations@[j].operator_plan->Some_0.deferred_inputs@.contains(wanted),
        decreases operations@.len() - k,
    {
        match &operations[k].operator_plan {
            Some(plan) => {
                if is_claimed_by(plan, producer, source, transform) {
                    return true;
                }
            },
            None => {},
        }
        k += 1;
    }
    false
}

// ---------------------------------------------------------------- marking

/// Marks the listed shards from `i` on as not materialized.
pub open spec fn unmaterialize_from(s: StateModel, ids: Seq<LowShardId>, i: int) -> Step
    decreases ids.len() - i,
{
    if i >= ids.len() {
        Ok(s)
    } else {
        match redefine(s, ids[i], ShardDefinition::Unmaterialized) {
            Err(e) => Err(e),
            Ok(next) => unmaterialize_from(next, ids, i + 1),
        }
    }
}

/// Marks all shards of a value as not materialized.
pub open spec fn unmaterialize(s: StateModel, value: MidValueId) -> StepWith<bool> {
    match value_shards(s, value) {
        Err(e) => Err(e),
        Ok(ids) => match unmaterialize_from(s, ids, 0) {
            Err(e) => Err(e),
            Ok(next) => Ok((next, true)),
        },
    }
}

// ---------------------------------------------------------------- fused outputs

/// The output that an operation offers to leave to its consumer.
pub open spec fn offered_output(operation: MidOperation) -> Option<DeferredOutput> {
    match operation.operator_plan {
        Some(plan) => plan.deferred_output,
        None => None,
    }
}

/// Results of products in this order are unpacked before they are read in parts.
pub open spec fn needs_unpacking(order: ElementOrder) -> bool {
    order == ElementOrder::Amp(AmpOrder::Output) || order == ElementOrder::Amp(
        AmpOrder::TransposedLeft,
    )
}

/// The shards to read in place of the result: the source itself, unless it has
/// to be unpacked. `None` where it cannot be.
pub open spec fn deferred_storage<M: Target>(
    target: &M,
    s: StateModel,
    operation: MidOperation,
    source: MidValueId,
    result: MidValueId,
    sources: Seq<LowShardId>,
) -> StepWith<Option<Seq<LowShardId>>> {
    match shard_of(s.shards, sources[0]) {
        Err(e) => Err(e),
        Ok(from) => match value_shards(s, result) {
            Err(e) => Err(e),
            Ok(results) => match shard_of(s.shards, results[0]) {
                Err(e) => Err(e),
                Ok(to) => if target.spec_exchanges_panels(
                    from.tensor_type.format,
                    to.tensor_type.format,
                ) || !needs_unpacking(from.tensor_type.format.layout.order) {
                    Ok((s, Some(sources)))
                } else {
                    unpack_amp(
                        s,
                        source,
                        WorkProvenance {
                            operation: operation.source,
                            value: Some(result),
                            reason: WorkReason::OperatorKernel,
                        },
                    )
                },
            },
        },
    }
}

/// Records that the result is read through a transform of other shards.
pub open spec fn record_deferred(
    s: StateModel,
    result: MidValueId,
    transform: DeferredTransform,
    shards: Seq<LowShardId>,
) -> StateModel {
    StateModel {
        deferred_values: s.deferred_values.push(DeferredModel { value: result, transform, shards }),
        ..s
    }
}

/// Leaves the result of an operation to its only consumer, where the consumer
/// is planned to read the source through the same transform, and the parts are
/// of equal width.
pub open spec fn defer_fused_output<M: Target>(
    target: &M,
    s: StateModel,
    operation: MidOperation,
    operations: Seq<MidOperation>,
    retained: Seq<MidValueId>,
) -> StepWith<bool> {
    match offered_output(operation) {
        None => Ok((s, false)),
        Some(offered) => if operation.results@.len() != 1 || offered.source_input
            >= operation.inputs@.len() {
            Ok((s, false))
        } else {
            let result = operation.results@[0];
            let source = operation.inputs@[offered.source_input as int];
            let parts = match offered.transform {
                DeferredTransform::SplitLastAxisIntoLeading { parts } => parts,
            };
            if !used_once(operations, retained, result) || !claimed(
                operations,
                result,
                source,
                offered.transform,
            ) {
                Ok((s, false))
            } else {
                match value_shards(s, source) {
                    Err(e) => Err(e),
                    Ok(sources) => match shard_of(s.shards, sources[0]) {
                        Err(e) => Err(e),
                        Ok(first) => if first.tensor_type.shape.len() < 3 {
                            Err(LowLoweringError::InvalidOperatorPlan)
                        } else if parts == 0 || first.tensor_type.shape[2] % parts != 0 {
                            Ok((s, false))
                        } else {
                            match deferred_storage(target, s, operation, source, result, sources) {
                                Err(e) => Err(e),
                                Ok((a, None)) => Ok((a, false)),
                                Ok((a, Some(shards))) => unmaterialize(
                                    record_deferred(a, result, offered.transform, shards),
                                    result,
                                ),
                            }
                        },
                    },
                }
            }
        },
    }
}

// ---------------------------------------------------------------- conversions

/// The first position of a value in a list, from `i` on.
pub open spec fn position_from(values: Seq<MidValueId>, value: MidValueId, i: int) -> Option<int>
    decreases values.len() - i,
{
    if i >= values.len() {
        None
    } else if values[i] == value {
        Some(i)
    } else {
        position_from(values, value, i + 1)
    }
}

/// The operation takes the value in slices.
pub open spec fn takes_slices(operation: MidOperation, value: MidValueId) -> bool {
    match position_from(operation.inputs@, value, 0) {
        None => false,
        Some(i) => match operation.operator_plan {
            None => false,
            Some(plan) => i < plan.requirements.inputs@.len()
                && plan.requirements.inputs@[i].materialization
                == OperandMaterialization::DispatchSlices,
        },
    }
}

/// Leaves a rearrangement to the next operation, where that is its only
/// consumer and takes the value in slices.
pub open spec fn defer_conversion(
    s: StateModel,
    operation: MidOperation,
    next: Option<MidOperation>,
    operations: Seq<MidOperation>,
    retained: Seq<MidValueId>,
) -> StepWith<bool> {
    if !(operation.kind is Rearrange) || next is None {
        Ok((s, false))
    } else {
        match operation.conversion_plan {
            None => Ok((s, false)),
            Some(plan) => if !plan.strategy.spec_uses_intersections()
                || plan.output.materialization != OperandMaterialization::DispatchSlices
                || operation.inputs@.len() != 1 || operation.results@.len() != 1 || !used_once(
                operations,
                retained,
                operation.results@[0],
            ) || !takes_slices(next->Some_0, operation.results@[0]) {
                Ok((s, false))
            } else {
                unmaterialize(
                    StateModel {
                        deferred_conversions: s.deferred_conversions.push(
                            (operation.results@[0], operation.inputs@[0]),
                        ),
                        ..s
                    },
                    operation.results@[0],
                )
            },
        }
    }
}

// ---------------------------------------------------------------- carrying out

fn is_taken_in_slices(operation: &MidOperation, value: MidValueId) -> (r: bool)
    ensures
        r == takes_slices(*operation, value),
{
    let ghost inputs = operation.inputs@;
    let mut i: usize = 0;
    while i < operation.inputs.len()
        invariant
            i <= operation.inputs@.len(),
            position_from(inputs, value, 0) == position_from(inputs, value, i as int),
        decreases operation.inputs@.len() - i,
    {
        if operation.inputs[i] == value {
            return match &operation.operator_plan {
                Some(plan) => i < plan.requirements.inputs.len()
                    && plan.requirements.inputs[i].materialization
                    == OperandMaterialization::DispatchSlices,
                None => false,
            };
        }
        i += 1;
    }
    false
}

/// `r` hands back the expected shards, or is the expected error.
pub open spec fn gave_shards(
    r: LowLoweringResult<Option<Vec<LowShardId>>>,
    after: StateModel,
    step: StepWith<Option<Seq<LowShardId>>>,
) -> bool {
    match r {
        Ok(Some(ids)) => step == Ok::<(StateModel, Option<Seq<LowShardId>>), LowLoweringError>(
            (after, Some(ids@)),
        ),
        Ok(None) => step == Ok::<(StateModel, Option<Seq<LowShardId>>), LowLoweringError>(
            (after, None),
        ),
        Err(e) => step == Err::<(StateModel, Option<Seq<LowShardId>>), LowLoweringError>(e),
    }
}

impl LoweringState {
    fn unmaterialize(&mut self, value: MidValueId) -> (r: LowLoweringResult<bool>)
        ensures
            gave(r, final(self)@, unmaterialize(old(self)@, value)),
    {
        let ids = self.value_shards(value)?;
        let ghost start = self@;
        let mut i: usize = 0;
        while i < ids.len()
            invariant
                i <= ids@.len(),
                unmaterialize_from(start, ids@, 0) == unmaterialize_from(self@, ids@, i as int),
            decreases ids@.len() - i,
        {
            self.redefine(ids[i], ShardDefinition::Unmaterialized)?;
            i += 1;
        }
        Ok(true)
    }

    fn deferred_storage<M: Target>(
        &mut self,
        target: &M,
        operation: &MidOperation,
        source: MidValueId,
        result: MidValueId,
        sources: Vec<LowShardId>,
    ) -> (r: LowLoweringResult<Option<Vec<LowShardId>>>)
        requires
            sources@.len() > 0,
        ensures
            gave_shards(
                r,
                final(self)@,
                deferred_storage(target, old(self)@, *operation, source, result, sources@),
            ),
    {
        let from = self.shard(sources[0])?;
        let results = self.value_shards(result)?;
        let to = self.shard(results[0])?;
        let direct = target.supports_f16_micro_panel_exchange(
            &from.tensor_type.format,
            &to.tensor_type.format,
        );
        let packed = match from.tensor_type.format.layout.order {
            ElementOrder::Amp(AmpOrder::Output) => true,
            ElementOrder::Amp(AmpOrder::TransposedLeft) => true,
            _ => false,
        };
        if direct || !packed {
            return Ok(Some(sources));
        }
        self.unpack_amp_to_row_major(
            source,
            WorkProvenance {
                operation: operation.source,
                value: Some(result),
                reason: WorkReason::OperatorKernel,
            },
        )
    }

    /// Leaves the result of an operation to its consumer, if it can be.
    pub fn defer_fused_output<M: Target>(
        &mut self,
        target: &M,
        operation: &MidOperation,
        operations: &Vec<MidOperation>,
        retained: &Vec<MidValueId>,
    ) -> (r: LowLoweringResult<bool>)
        ensures
            gave(
                r,
                final(self)@,
                defer_fused_output(target, old(self)@, *operation, operations@, retained@),
            ),
    {
        broadcast use group_deep;

        let offered = match &operation.operator_plan {
            Some(plan) => match plan.deferred_output {
                Some(offered) => offered,
                None => {
                    return Ok(false);
                },
            },
            None => {
                return Ok(false);
            },
        };
        if operation.results.len() != 1 || offered.source_input >= operation.inputs.len() {
            return Ok(false);
        }
        let result = operation.results[0];
        let source = operation.inputs[offered.source_input];
        if !is_used_once(operations, retained, result) || !is_claimed(
            operations,
            result,
            source,
            offered.transform,
        ) {
            return Ok(false);
        }
        let parts: u32 = match offered.transform {
            DeferredTransform::SplitLastAxisIntoLeading { parts } => parts,
        };
        let sources = self.value_shards(source)?;
        let first = self.shard(sources[0])?;
        if first.tensor_type.shape.0.len() < 3 {
            return Err(LowLoweringError::InvalidOperatorPlan);
        }
        if parts == 0 || first.tensor_type.shape.0[2] % parts != 0 {
            return Ok(false);
        }
        match self.deferred_storage(target, operation, source, result, sources)? {
            None => Ok(false),
            Some(shards) => {
                let ghost before = self@;
                let deferred = DeferredValue {
                    value: result,
                    transform: offered.transform,
                    shards,
                };
                self.deferred_values.push(deferred);
                assert(self@ == record_deferred(before, result, offered.transform, shards@));
                self.unmaterialize(result)
            },
        }
    }

    /// Leaves a rearrangement to the next operation, if it can be.
    pub fn defer_conversion(
        &mut self,
        operation: &MidOperation,
        next: Option<&MidOperation>,
        operations: &Vec<MidOperation>,
        retained: &Vec<MidValueId>,
    ) -> (r: LowLoweringResult<bool>)
        ensures
            gave(
                r,
                final(self)@,
                defer_conversion(
                    old(self)@,
                    *operation,
                    match next {
                        Some(next) => Some(*next),
                        None => None,
                    },
                    operations@,
                    retained@,
                ),
            ),
    {
        let next = match next {
            Some(next) => next,
            None => {
                return Ok(false);
            },
        };
        match &operation.kind {
            MidOperationKind::Rearrange => {},
            _ => {
                return Ok(false);
            },
        }
        let plan = match &operation.conversion_plan {
            Some(plan) => plan,
            None => {
                return Ok(false);
            },
        };
        if !plan.strategy.uses_intersections() || plan.output.materialization
            != OperandMaterialization::DispatchSlices || operation.inputs.len() != 1
            || operation.results.len() != 1 {
            return Ok(false);
        }
        let result = operation.results[0];
        if !is_used_once(operations, retained, result) || !is_taken_in_slices(next, result) {
            return Ok(false);
        }
        self.deferred_conversions.push((result, operation.inputs[0]));
        self.unmaterialize(result)
    }
}

} // verus!
