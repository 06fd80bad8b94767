//! What lowering does with every operation of a region: it leaves the result to
//! the only operation that reads it, or schedules the operation.

use crate::conversion::lower_conversion;
use crate::deferral::{
    defer_conversion, defer_fused_output, input_uses, needs_unpacking, occurrences, position_from,
    unmaterialize, unmaterialize_from, used_once,
};
use crate::lookup::value_shards;
use crate::low::{LowLoweringError, LowShardId, ShardDefinition, TileWork};
use crate::mid::{
    DeferredInput, DeferredOutput, MidGraph, MidOperation, MidOperationKind, MidValueId,
    OperandMaterialization, OperatorPlan, PipelineConfig,
};
use crate::placement::initial_state;
use crate::program::{lowered, ProgramModel};
use crate::region::{
    append_checkpoint, following, is_checked, lower_operations_from, lower_operator, lower_region,
    lower_repeat, no_work, other_breakpoint,
};
use crate::state::{redefine, DeferredModel, StateModel};
use crate::target::Target;
use vstd::prelude::*;

verus! {

// ---------------------------------------------------------------- uses

/// An operation takes the value as an input.
pub open spec fn is_read(operations: Seq<MidOperation>, value: MidValueId, k: int, j: int) -> bool {
    &&& 0 <= k < operations.len()
    &&& 0 <= j < operations[k].inputs@.len()
    &&& operations[k].inputs@[j] == value
}

/// The region hands the value back.
pub open spec fn is_handed_back(retained: Seq<MidValueId>, value: MidValueId, j: int) -> bool {
    0 <= j < retained.len() && retained[j] == value
}

/// The value is read by one operation as one of its inputs, and the region does
/// not hand it back.
pub open spec fn is_read_once(
    operations: Seq<MidOperation>,
    retained: Seq<MidValueId>,
    value: MidValueId,
) -> bool {
    &&& read_once_from(operations, value, 0)
    &&& forall|j: int| 0 <= j ==> !#[trigger] is_handed_back(retained, value, j)
}

/// The region hands the value back once, and no operation reads it.
pub open spec fn is_handed_back_once(
    operations: Seq<MidOperation>,
    retained: Seq<MidValueId>,
    value: MidValueId,
) -> bool {
    &&& occurs_once(retained, value, 0)
    &&& forall|k: int, j: int| 0 <= k ==> !#[trigger] is_read(operations, value, k, j)
}

/// The value is at exactly one position of the list, from `i` on.
pub open spec fn occurs_once(values: Seq<MidValueId>, value: MidValueId, i: int) -> bool {
    exists|j: int|
        i <= j && #[trigger] is_handed_back(values, value, j) && forall|m: int|
            i <= m && #[trigger] is_handed_back(values, value, m) ==> m == j
}

proof fn lemma_occurrences(values: Seq<MidValueId>, value: MidValueId, i: int)
    requires
        0 <= i,
    ensures
        occurrences(values, value, i) == 0 <==> forall|j: int|
            i <= j ==> !#[trigger] is_handed_back(values, value, j),
        occurrences(values, value, i) == 1 <==> occurs_once(values, value, i),
    decreases values.len() - i,
{
    if i < values.len() {
        lemma_occurrences(values, value, i + 1);
        if values[i] == value {
            assert(is_handed_back(values, value, i));
            if occurrences(values, value, i) == 1 {
                assert forall|m: int| i <= m && #[trigger]
                    is_handed_back(values, value, m) implies m == i by {
                    if m > i {
                        assert(i + 1 <= m);
                    }
                }
            } else if occurs_once(values, value, i) {
                assert(exists|j: int| i + 1 <= j && #[trigger] is_handed_back(values, value, j));
            }
        } else {
            assert(!is_handed_back(values, value, i));
            if occurs_once(values, value, i + 1) {
                let j = choose|j: int|
                    i + 1 <= j && #[trigger] is_handed_back(values, value, j) && forall|m: int|
                        i + 1 <= m && #[trigger] is_handed_back(values, value, m) ==> m == j;
                assert forall|m: int| i <= m && #[trigger]
                    is_handed_back(values, value, m) implies m == j by {
                    assert(m != i);
                }
            }
            if occurs_once(values, value, i) {
                let j = choose|j: int|
                    i <= j && #[trigger] is_handed_back(values, value, j) && forall|m: int|
                        i <= m && #[trigger] is_handed_back(values, value, m) ==> m == j;
                assert(i + 1 <= j);
            }
            if forall|j: int| i + 1 <= j ==> !#[trigger] is_handed_back(values, value, j) {
                assert forall|j: int| i <= j implies !#[trigger] is_handed_back(
                    values,
                    value,
                    j,
                ) by {}
            }
        }
    }
}

/// One operation from `k` on reads the value, as one of its inputs.
pub open spec fn read_once_from(operations: Seq<MidOperation>, value: MidValueId, k: int) -> bool {
    exists|l: int, j: int|
        k <= l && #[trigger] is_read(operations, value, l, j) && forall|n: int, m: int|
            k <= n && #[trigger] is_read(operations, value, n, m) ==> n == l && m == j
}

proof fn lemma_input_uses(operations: Seq<MidOperation>, value: MidValueId, k: int)
    requires
        0 <= k,
    ensures
        input_uses(operations, value, k) == 0 <==> forall|l: int, j: int|
            k <= l ==> !#[trigger] is_read(operations, value, l, j),
        input_uses(operations, value, k) == 1 <==> read_once_from(operations, value, k),
    decreases operations.len() - k,
{
    if k < operations.len() {
        let inputs = operations[k].inputs@;
        lemma_occurrences(inputs, value, 0);
        lemma_input_uses(operations, value, k + 1);
        let here = occurrences(inputs, value, 0);
        let later = input_uses(operations, value, k + 1);
        assert forall|j: int| #[trigger] is_read(operations, value, k, j) == is_handed_back(
            inputs,
            value,
            j,
        ) by {}
        if here == 0 {
            assert forall|j: int| !#[trigger] is_read(operations, value, k, j) by {
                assert(!is_handed_back(inputs, value, j) || j < 0);
            }
            if read_once_from(operations, value, k + 1) {
                let (l, j) = choose|l: int, j: int|
                    k + 1 <= l && #[trigger] is_read(operations, value, l, j) && forall|
                        n: int,
                        m: int,
                    |
                        k + 1 <= n && #[trigger] is_read(operations, value, n, m) ==> n == l && m
                            == j;
                assert forall|n: int, m: int| k <= n && #[trigger]
                    is_read(operations, value, n, m) implies n == l && m == j by {
                    assert(n != k);
                }
            }
            if read_once_from(operations, value, k) {
                let (l, j) = choose|l: int, j: int|
                    k <= l && #[trigger] is_read(operations, value, l, j) && forall|
                        n: int,
                        m: int,
                    |
                        k <= n && #[trigger] is_read(operations, value, n, m) ==> n == l && m == j;
                assert(k + 1 <= l);
            }
            if later == 0 {
                assert forall|l: int, j: int| k <= l implies !#[trigger] is_read(
                    operations,
                    value,
                    l,
                    j,
                ) by {
                    if l == k {
                        assert(!is_read(operations, value, k, j));
                    }
                }
            }
        } else {
            let j = choose|j: int| 0 <= j && #[trigger] is_handed_back(inputs, value, j);
            assert(is_read(operations, value, k, j));
            if later > 0 {
                let (l, m) = choose|l: int, m: int|
                    k + 1 <= l && #[trigger] is_read(operations, value, l, m);
                assert(is_read(operations, value, l, m));
                assert(!read_once_from(operations, value, k));
            } else if here == 1 {
                let o = choose|o: int|
                    0 <= o && #[trigger] is_handed_back(inputs, value, o) && forall|m: int|
                        0 <= m && #[trigger] is_handed_back(inputs, value, m) ==> m == o;
                assert(is_read(operations, value, k, o));
                assert forall|n: int, m: int| k <= n && #[trigger]
                    is_read(operations, value, n, m) implies n == k && m == o by {
                    if n == k {
                        assert(is_handed_back(inputs, value, m));
                    } else {
                        assert(k + 1 <= n);
                    }
                }
                assert(read_once_from(operations, value, k));
            } else if read_once_from(operations, value, k) {
                let (l, o) = choose|l: int, o: int|
                    k <= l && #[trigger] is_read(operations, value, l, o) && forall|
                        n: int,
                        m: int,
                    |
                        k <= n && #[trigger] is_read(operations, value, n, m) ==> n == l && m == o;
                assert(l == k && o == j);
                assert(forall|m: int|
                    0 <= m && #[trigger] is_handed_back(inputs, value, m) ==> is_read(
                        operations,
                        value,
                        k,
                        m,
                    ));
                assert(occurs_once(inputs, value, 0));
            }
        }
    } else {
        assert forall|l: int, j: int| k <= l implies !#[trigger] is_read(
            operations,
            value,
            l,
            j,
        ) by {}
    }
}

/// A value counts as used once where it has one use and no other: as an input of
/// one operation, or among what the region hands back.
pub proof fn lemma_single_uses_are_single(
    operations: Seq<MidOperation>,
    retained: Seq<MidValueId>,
    value: MidValueId,
)
    ensures
        used_once(operations, retained, value) <==> (is_read_once(operations, retained, value)
            || is_handed_back_once(operations, retained, value)),
{
    lemma_input_uses(operations, value, 0);
    lemma_occurrences(retained, value, 0);
}

// ---------------------------------------------------------------- deferral

/// Nothing is scheduled between the two schedules.
pub open spec fn adds_no_work(s: StateModel, t: StateModel) -> bool {
    &&& t.tiles == s.tiles
    &&& t.phases == s.phases
    &&& t.kernel_runs == s.kernel_runs
    &&& t.local_copies == s.local_copies
    &&& t.repeat_runs == s.repeat_runs
}

/// All shards of a value are marked as not materialized.
pub open spec fn is_unmaterialized(t: StateModel, value: MidValueId) -> bool {
    &&& value.0 < t.canonical.len()
    &&& forall|k: int|
        0 <= k < t.canonical[value.0 as int].len() ==> {
            let id = #[trigger] t.canonical[value.0 as int][k];
            id.0 < t.shards.len() && t.shards[id.0 as int].definition
                == ShardDefinition::Unmaterialized
        }
}

proof fn lemma_unmaterialize_from(s: StateModel, ids: Seq<LowShardId>, i: int)
    requires
        0 <= i <= ids.len(),
        forall|k: int|
            0 <= k < i ==> (#[trigger] ids[k]).0 < s.shards.len()
                && s.shards[ids[k].0 as int].definition == ShardDefinition::Unmaterialized,
    ensures
        match unmaterialize_from(s, ids, i) {
            Ok(t) => {
                &&& t == (StateModel { shards: t.shards, ..s })
                &&& t.shards.len() == s.shards.len()
                &&& forall|k: int|
                    0 <= k < ids.len() ==> (#[trigger] ids[k]).0 < t.shards.len()
                        && t.shards[ids[k].0 as int].definition
                        == ShardDefinition::Unmaterialized
            },
            Err(_) => true,
        },
    decreases ids.len() - i,
{
    if i < ids.len() {
        if let Ok(next) = redefine(s, ids[i], ShardDefinition::Unmaterialized) {
            lemma_unmaterialize_from(next, ids, i + 1);
        }
    }
}

proof fn lemma_unmaterialize(s: StateModel, value: MidValueId)
    ensures
        match unmaterialize(s, value) {
            Ok((t, done)) => {
                &&& done
                &&& t == (StateModel { shards: t.shards, ..s })
                &&& is_unmaterialized(t, value)
            },
            Err(_) => true,
        },
{
    if let Ok(ids) = value_shards(s, value) {
        lemma_unmaterialize_from(s, ids, 0);
    }
}

/// A result is left to its consumer only where it has no other use and where the
/// consumer is planned to read the source through the same transform. None of
/// its shards is materialized. The newest note of deferred values is that of the
/// result; it names the shards of the source, unless those are unpacked first.
pub proof fn lemma_fused_outputs_are_left_to_one_reader<M: Target>(
    target: &M,
    s: StateModel,
    operation: MidOperation,
    operations: Seq<MidOperation>,
    retained: Seq<MidValueId>,
    plan: OperatorPlan,
    offered: DeferredOutput,
)
    requires
        operation.operator_plan == Some(plan),
        plan.deferred_output == Some(offered),
    ensures
        match defer_fused_output(target, s, operation, operations, retained) {
            Ok((t, true)) => {
                let result = operation.results@[0];
                let source = operation.inputs@[offered.source_input as int];
                &&& operation.results@.len() == 1
                &&& offered.source_input < operation.inputs@.len()
                &&& is_read_once(operations, retained, result) || is_handed_back_once(
                    operations,
                    retained,
                    result,
                )
                &&& exists|k: int|
                    0 <= k < operations.len() && (#[trigger] operations[k]).operator_plan is Some
                        && operations[k].operator_plan->Some_0.deferred_inputs@.contains(
                        Some(
                            DeferredInput {
                                producer: result,
                                source,
                                transform: offered.transform,
                            },
                        ),
                    )
                &&& is_unmaterialized(t, result)
                &&& t.deferred_values.len() > 0
                &&& t.deferred_values.last().value == result
                &&& t.deferred_values.last().transform == offered.transform
                &&& source.0 < s.canonical.len() && s.canonical[source.0 as int].len() > 0
                &&& !needs_unpacking(
                    s.shards[s.canonical[source.0 as int][0].0 as int].tensor_type.format.layout.order,
                ) ==> adds_no_work(s, t) && t.deferred_values == s.deferred_values.push(
                    DeferredModel {
                        value: result,
                        transform: offered.transform,
                        shards: s.canonical[source.0 as int],
                    },
                )
            },
            Ok((t, false)) => {
                let source = operation.inputs@[offered.source_input as int];
                (source.0 < s.canonical.len() && s.canonical[source.0 as int].len() > 0
                    && !needs_unpacking(
                    s.shards[s.canonical[source.0 as int][0].0 as int].tensor_type.format.layout.order,
                )) ==> t == s
            },
            Err(_) => true,
        },
{
    if let Ok((t, deferred)) = defer_fused_output(target, s, operation, operations, retained) {
        let result = operation.results@[0];
        lemma_single_uses_are_single(operations, retained, result);
        assert forall|a: StateModel| match #[trigger] unmaterialize(a, result) {
            Ok((b, done)) => {
                &&& done
                &&& b == (StateModel { shards: b.shards, ..a })
                &&& is_unmaterialized(b, result)
            },
            Err(_) => true,
        } by {
            lemma_unmaterialize(a, result);
        }
    }
}

proof fn lemma_position(values: Seq<MidValueId>, value: MidValueId, i: int)
    requires
        0 <= i,
    ensures
        position_from(values, value, i) matches Some(j) ==> i <= j < values.len() && values[j]
            == value,
    decreases values.len() - i,
{
    if i < values.len() {
        lemma_position(values, value, i + 1);
    }
}

/// A rearrangement is left to the next operation only where its result has no
/// other use and where that operation takes the result in slices. Nothing is
/// scheduled, none of the result's shards is materialized, and the newest note
/// of deferred conversions says which value the result is read from.
pub proof fn lemma_conversions_are_left_to_the_next_operation(
    s: StateModel,
    operation: MidOperation,
    next: Option<MidOperation>,
    operations: Seq<MidOperation>,
    retained: Seq<MidValueId>,
)
    ensures
        match defer_conversion(s, operation, next, operations, retained) {
            Ok((t, true)) => {
                let result = operation.results@[0];
                &&& operation.kind is Rearrange
                &&& operation.inputs@.len() == 1
                &&& operation.results@.len() == 1
                &&& next is Some
                &&& is_read_once(operations, retained, result) || is_handed_back_once(
                    operations,
                    retained,
                    result,
                )
                &&& next->Some_0.operator_plan is Some
                &&& exists|j: int|
                    0 <= j < next->Some_0.inputs@.len() && #[trigger] next->Some_0.inputs@[j]
                        == result && j
                        < next->Some_0.operator_plan->Some_0.requirements.inputs@.len()
                        && next->Some_0.operator_plan->Some_0.requirements.inputs@[j].materialization
                        == OperandMaterialization::DispatchSlices
                &&& adds_no_work(s, t)
                &&& t.deferred_values == s.deferred_values
                &&& t.deferred_conversions == s.deferred_conversions.push(
                    (result, operation.inputs@[0]),
                )
                &&& is_unmaterialized(t, result)
            },
            Ok((t, false)) => t == s,
            Err(_) => true,
        },
{
    if let Ok((t, true)) = defer_conversion(s, operation, next, operations, retained) {
        let result = operation.results@[0];
        lemma_single_uses_are_single(operations, retained, result);
        lemma_position(next->Some_0.inputs@, result, 0);
        lemma_unmaterialize(
            StateModel {
                deferred_conversions: s.deferred_conversions.push((result, operation.inputs@[0])),
                ..s
            },
            result,
        );
        let j = position_from(next->Some_0.inputs@, result, 0)->Some_0;
        assert(next->Some_0.inputs@[j] == result);
    }
}

// ---------------------------------------------------------------- steps

/// Every tile's list has one more entry, the same on all.
pub open spec fn one_more_everywhere(s: StateModel, t: StateModel, work: TileWork) -> bool {
    &&& t == (StateModel { tiles: t.tiles, ..s })
    &&& t.tiles.len() == s.tiles.len()
    &&& forall|i: int|
        0 <= i < s.tiles.len() ==> (#[trigger] t.tiles[i]).tile == s.tiles[i].tile
            && t.tiles[i].work == s.tiles[i].work.push(work)
}

/// What becomes of one operation of a region. Its result is left to its reader;
/// or else the operation is lowered according to its kind. After an operator or
/// a repeat that stems from a source operation, every tile has a checkpoint,
/// where checkpoints are asked for, and the breakpoint changes to the other.
#[verifier::opaque]
pub open spec fn is_step<M: Target>(
    target: &M,
    operations: Seq<MidOperation>,
    retained: Seq<MidValueId>,
    checkpoints: bool,
    k: int,
    before: (StateModel, u8),
    after: (StateModel, u8),
) -> bool {
    match defer_fused_output(target, before.0, operations[k], operations, retained) {
        Err(_) => false,
        Ok((a, true)) => after == (a, before.1),
        Ok((a, false)) => is_conversion_step(
            target,
            operations,
            retained,
            checkpoints,
            k,
            (a, before.1),
            after,
        ),
    }
}

/// What becomes of an operation whose output is not fused.
pub open spec fn is_conversion_step<M: Target>(
    target: &M,
    operations: Seq<MidOperation>,
    retained: Seq<MidValueId>,
    checkpoints: bool,
    k: int,
    before: (StateModel, u8),
    after: (StateModel, u8),
) -> bool {
    let operation = operations[k];
    let next = if k + 1 < operations.len() {
        Some(operations[k + 1])
    } else {
        None
    };
    match defer_conversion(before.0, operation, next, operations, retained) {
        Err(_) => false,
        Ok((a, true)) => after == (a, before.1),
        Ok((a, false)) => match (match operation.kind {
            MidOperationKind::Repeat(repeat) => lower_repeat(target, a, operation, repeat),
            MidOperationKind::Operator(_) => lower_operator(target, a, operation),
            _ => lower_conversion(target, a, operation),
        }) {
            Err(_) => false,
            Ok(b) => if checkpoints && operation.source is Some && (operation.kind is Operator
                || operation.kind is Repeat) {
                &&& one_more_everywhere(
                    b,
                    after.0,
                    TileWork::Checkpoint(operation.source->Some_0, before.1),
                )
                &&& after.1 == if before.1 == 0 {
                    1u8
                } else {
                    0u8
                }
            } else {
                after == (b, before.1)
            },
        },
    }
}

/// The schedules lead from the first to the last, one step for each operation
/// from `from` on.
pub open spec fn are_steps<M: Target>(
    target: &M,
    operations: Seq<MidOperation>,
    retained: Seq<MidValueId>,
    checkpoints: bool,
    from: int,
    states: Seq<(StateModel, u8)>,
) -> bool {
    &&& states.len() == operations.len() - from + 1
    &&& forall|k: int|
        from <= k < operations.len() ==> #[trigger] is_step(
            target,
            operations,
            retained,
            checkpoints,
            k,
            states[k - from],
            states[k - from + 1],
        )
}

/// Lowering takes one step, and goes on with the next operation.
proof fn lemma_step<M: Target>(
    target: &M,
    s: StateModel,
    operations: Seq<MidOperation>,
    retained: Seq<MidValueId>,
    checkpoints: bool,
    breakpoint: u8,
    k: int,
) -> (second: (StateModel, u8))
    requires
        0 <= k < operations.len(),
        lower_operations_from(
            target,
            s,
            operations,
            retained,
            checkpoints,
            breakpoint,
            k,
        ) is Ok,
    ensures
        is_step(
            target,
            operations,
            retained,
            checkpoints,
            k,
            (s, breakpoint),
            second,
        ),
        lower_operations_from(
            target,
            s,
            operations,
            retained,
            checkpoints,
            breakpoint,
            k,
        ) == lower_operations_from(
            target,
            second.0,
            operations,
            retained,
            checkpoints,
            second.1,
            k + 1,
        ),
{
    reveal(is_step);
    let operation = operations[k];
    let (a, fused) = defer_fused_output(target, s, operation, operations, retained)->Ok_0;
    if fused {
        (a, breakpoint)
    } else {
        let (b, left) = defer_conversion(
            a,
            operation,
            following(operations, k),
            operations,
            retained,
        )->Ok_0;
        if left {
            (b, breakpoint)
        } else {
            let c = (match operation.kind {
                MidOperationKind::Repeat(repeat) => lower_repeat(target, b, operation, repeat),
                MidOperationKind::Operator(_) => lower_operator(target, b, operation),
                _ => lower_conversion(target, b, operation),
            })->Ok_0;
            if is_checked(operation, checkpoints) {
                (append_checkpoint(c, operation, breakpoint), other_breakpoint(breakpoint))
            } else {
                (c, breakpoint)
            }
        }
    }
}

proof fn lemma_steps<M: Target>(
    target: &M,
    s: StateModel,
    operations: Seq<MidOperation>,
    retained: Seq<MidValueId>,
    checkpoints: bool,
    breakpoint: u8,
    k: int,
    end: StateModel,
) -> (states: Seq<(StateModel, u8)>)
    requires
        0 <= k <= operations.len(),
        lower_operations_from(
            target,
            s,
            operations,
            retained,
            checkpoints,
            breakpoint,
            k,
        ) == Ok::<StateModel, LowLoweringError>(end),
    ensures
        are_steps(target, operations, retained, checkpoints, k, states),
        states[0] == (s, breakpoint),
        states.last().0 == end,
    decreases operations.len() - k,
{
    let first = (s, breakpoint);
    if k == operations.len() {
        lemma_no_step(target, s, operations, retained, checkpoints, breakpoint);
        seq![first]
    } else {
        let second = lemma_step(target, s, operations, retained, checkpoints, breakpoint, k);
        let rest = lemma_steps(
            target,
            second.0,
            operations,
            retained,
            checkpoints,
            second.1,
            k + 1,
            end,
        );
        lemma_step_before(target, operations, retained, checkpoints, k, first, rest);
        seq![first] + rest
    }
}

proof fn lemma_no_step<M: Target>(
    target: &M,
    s: StateModel,
    operations: Seq<MidOperation>,
    retained: Seq<MidValueId>,
    checkpoints: bool,
    breakpoint: u8,
)
    ensures
        lower_operations_from(
            target,
            s,
            operations,
            retained,
            checkpoints,
            breakpoint,
            operations.len() as int,
        ) == Ok::<StateModel, LowLoweringError>(s),
{
}

proof fn lemma_step_before<M: Target>(
    target: &M,
    operations: Seq<MidOperation>,
    retained: Seq<MidValueId>,
    checkpoints: bool,
    k: int,
    first: (StateModel, u8),
    rest: Seq<(StateModel, u8)>,
)
    requires
        0 <= k < operations.len(),
        are_steps(target, operations, retained, checkpoints, k + 1, rest),
        is_step(target, operations, retained, checkpoints, k, first, rest[0]),
    ensures
        are_steps(target, operations, retained, checkpoints, k, seq![first] + rest),
        (seq![first] + rest)[0] == first,
        (seq![first] + rest).last() == rest.last(),
{
    let states = seq![first] + rest;
    assert forall|i: int| k <= i < operations.len() implies #[trigger] is_step(
        target,
        operations,
        retained,
        checkpoints,
        i,
        states[i - k],
        states[i - k + 1],
    ) by {
        if i > k {
            assert(is_step(
                target,
                operations,
                retained,
                checkpoints,
                i,
                rest[i - (k + 1)],
                rest[i - (k + 1) + 1],
            ));
            assert(states[i - k] == rest[i - (k + 1)]);
            assert(states[i - k + 1] == rest[i - (k + 1) + 1]);
        } else {
            assert(states[0] == first);
            assert(states[1] == rest[0]);
        }
    }
}

/// Lowering a region takes one step for each of its operations, in order, from
/// lists without work. No operation is passed over, and none is lowered twice.
pub proof fn lemma_regions_lower_every_operation<M: Target>(
    target: &M,
    s: StateModel,
    operations: Seq<MidOperation>,
    retained: Seq<MidValueId>,
    checkpoints: bool,
)
    ensures
        match lower_region(target, s, operations, retained, checkpoints) {
            Ok(t) => exists|states: Seq<(StateModel, u8)>|
                #[trigger] are_steps(target, operations, retained, checkpoints, 0, states)
                    && states[0].0 == (StateModel { tiles: no_work(s.tile_count), ..s })
                    && states[0].1 == 0 && states.last().0 == t,
            Err(_) => true,
        },
{
    if let Ok(t) = lower_region(target, s, operations, retained, checkpoints) {
        let start = StateModel { tiles: no_work(s.tile_count), ..s };
        let states = lemma_steps(target, start, operations, retained, checkpoints, 0, 0, t);
        assert(are_steps(target, operations, retained, checkpoints, 0, states));
    }
}

/// The first step starts with all that is placed, no work on any tile, and the
/// first breakpoint.
pub open spec fn starts_without_work(start: StateModel, first: (StateModel, u8)) -> bool {
    &&& first.1 == 0
    &&& first.0 == (StateModel { tiles: first.0.tiles, ..start })
    &&& first.0.tiles.len() == start.tile_count
    &&& forall|i: int|
        0 <= i < first.0.tiles.len() ==> (#[trigger] first.0.tiles[i]).tile == i
            && first.0.tiles[i].work.len() == 0
}

/// The program is what a schedule holds.
pub open spec fn is_program_of(program: ProgramModel, end: StateModel) -> bool {
    &&& program.shards == end.shards
    &&& program.exchange_phases == end.phases
    &&& program.tiles == end.tiles
    &&& program.kernel_runs == end.kernel_runs
    &&& program.local_copies == end.local_copies
    &&& program.repeat_runs == end.repeat_runs
}

/// The schedules lead from the placed values of a graph to its program, one step
/// for each operation of the graph. What the graph hands back is retained.
pub open spec fn leads_to_program<M: Target>(
    target: &M,
    graph: MidGraph,
    config: PipelineConfig,
    program: ProgramModel,
    start: StateModel,
    states: Seq<(StateModel, u8)>,
) -> bool {
    &&& initial_state(target, graph, config.tile_count) == Ok::<StateModel, LowLoweringError>(start)
    &&& are_steps(
        target,
        graph.operations@,
        graph.outputs@,
        config.diagnostic_checkpoints,
        0,
        states,
    )
    &&& starts_without_work(start, states[0])
    &&& is_program_of(program, states.last().0)
}

proof fn lemma_program_parts<M: Target>(target: &M, graph: MidGraph, config: PipelineConfig)
    ensures
        match lowered(target, graph, config) {
            Ok(program) => match initial_state(target, graph, config.tile_count) {
                Ok(start) => match lower_region(
                    target,
                    start,
                    graph.operations@,
                    graph.outputs@,
                    config.diagnostic_checkpoints,
                ) {
                    Ok(end) => is_program_of(program, end),
                    Err(_) => false,
                },
                Err(_) => false,
            },
            Err(_) => true,
        },
{
}

/// A program is what the operations of its graph schedule, each in its turn,
/// after all values have been placed.
pub proof fn lemma_programs_schedule_every_operation<M: Target>(
    target: &M,
    graph: MidGraph,
    config: PipelineConfig,
)
    ensures
        match lowered(target, graph, config) {
            Ok(program) => exists|start: StateModel, states: Seq<(StateModel, u8)>| #[trigger]
                leads_to_program(target, graph, config, program, start, states),
            Err(_) => true,
        },
{
    lemma_program_parts(target, graph, config);
    if let Ok(program) = lowered(target, graph, config) {
        let start = initial_state(target, graph, config.tile_count)->Ok_0;
        lemma_steps_to_program(target, graph, config, program, start);
    }
}

proof fn lemma_steps_to_program<M: Target>(
    target: &M,
    graph: MidGraph,
    config: PipelineConfig,
    program: ProgramModel,
    start: StateModel,
)
    requires
        initial_state(target, graph, config.tile_count) == Ok::<StateModel, LowLoweringError>(
            start,
        ),
        match lower_region(
            target,
            start,
            graph.operations@,
            graph.outputs@,
            config.diagnostic_checkpoints,
        ) {
            Ok(end) => is_program_of(program, end),
            Err(_) => false,
        },
    ensures
        exists|states: Seq<(StateModel, u8)>| #[trigger]
            leads_to_program(target, graph, config, program, start, states),
{
    lemma_regions_lower_every_operation(
        target,
        start,
        graph.operations@,
        graph.outputs@,
        config.diagnostic_checkpoints,
    );
    let end = lower_region(
        target,
        start,
        graph.operations@,
        graph.outputs@,
        config.diagnostic_checkpoints,
    )->Ok_0;
    let states = choose|states: Seq<(StateModel, u8)>|
        #[trigger] are_steps(
            target,
            graph.operations@,
            graph.outputs@,
            config.diagnostic_checkpoints,
            0,
            states,
        ) && states[0].0 == (StateModel { tiles: no_work(start.tile_count), ..start })
            && states[0].1 == 0 && states.last().0 == end;
    assert(starts_without_work(start, states[0]));
    assert(leads_to_program(target, graph, config, program, start, states));
}

} // verus!
