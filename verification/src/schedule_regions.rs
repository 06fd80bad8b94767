//! Deferring, repeating and whole regions keep a schedule sound, and so a lowered
//! program is sound.

use crate::attention::AttentionSizes;
use crate::conversion::lower_conversion;
use crate::deferral::{
    claimed, defer_conversion, defer_fused_output, deferred_storage, needs_unpacking,
    offered_output, record_deferred, takes_slices, unmaterialize, unmaterialize_from, used_once,
};
use crate::gemm::GemmKernels;
use crate::lookup::{corresponding_shard, find_local_shard, value_shards};
use crate::low::{
    LowShardId, RepeatCarried, RepeatModel, RepeatRunId, ShardDefinition, TileWork,
    WorkListModel, WorkProvenance, WorkReason,
};
use crate::mid::{
    DeferredTransform, MidGraph, MidOperation, MidOperationKind, MidRepeat, MidValue, MidValueId,
    OperandMaterialization, OperatorDispatch, PipelineConfig,
};
use crate::placement::{
    Placement, best_offset, empty_state, initial_state, is_rotated, offset_from, place_rotated,
    place_rotated_from, place_shards_from, place_value, place_values_from, rotated, set_shards,
    shard_bytes_from, value_shard,
};
use crate::program::{ProgramModel, lowered};
use crate::region::{
    append_checkpoint, following, is_checked, lower_operations_from, lower_operator, lower_region,
    lower_repeat, no_work, other_breakpoint,
};
use crate::repeats::{
    append_tile_repeat, append_tile_repeats_from, bind_carried, carried_from, first_result,
    invariants_from, is_consistent, iterated_from, not_in_place_from,
};
use crate::schedule::{
    extends, follows, group_follows, is_met, is_sound, leads_somewhere, lemma_append_repeat,
    lemma_follows_on, lemma_still_meets,
    meets_within, tile_meets,
    lemma_extends_on, lemma_push_everywhere, lemma_push_shard, lemma_redefine, lemma_still_leads,
    list_leads, markers, meets_new_phases, tiles_agree,
};
use crate::schedule_attention::{lemma_lower_blocked_attention, lemma_lower_materialized_attention};
use crate::schedule_data::{
    lemma_lower_conversion, lemma_lower_pointwise, lemma_lower_split_heads, lemma_unpack_amp,
};
use crate::schedule_products::lemma_lower_blocked_gemm;
use crate::state::{StateModel, append_repeat, push_shard, redefine, shard_of};
use crate::target::Target;
use crate::tensor::ShardExtent;
use vstd::prelude::*;

verus! {

pub proof fn lemma_unmaterialize_from(s: StateModel, ids: Seq<LowShardId>, i: int)
    ensures
        match unmaterialize_from(s, ids, i) {
            Ok(t) => follows(s, t),
            Err(_) => true,
        },
    decreases ids.len() - i,
{
    broadcast use group_follows;

    if i >= ids.len() {
    } else {
        lemma_redefine(s, ids[i], ShardDefinition::Unmaterialized);
        if let Ok(next) = redefine(s, ids[i], ShardDefinition::Unmaterialized) {
            lemma_unmaterialize_from(next, ids, i + 1);
        }
    }
}

pub proof fn lemma_unmaterialize(s: StateModel, value: MidValueId)
    ensures
        match unmaterialize(s, value) {
            Ok((t, _)) => follows(s, t),
            Err(_) => true,
        },
{
    broadcast use group_follows;

    if let Ok(ids) = value_shards(s, value) {
        lemma_unmaterialize_from(s, ids, 0);
    }
}

pub proof fn lemma_deferred_storage<M: Target>(
    target: &M,
    s: StateModel,
    operation: MidOperation,
    source: MidValueId,
    result: MidValueId,
    sources: Seq<LowShardId>,
)
    ensures
        match deferred_storage(target, s, operation, source, result, sources) {
            Ok((t, _)) => follows(s, t),
            Err(_) => true,
        },
{
    broadcast use group_follows;

    if let Ok(from) = shard_of(s.shards, sources[0]) {
        if let Ok(results) = value_shards(s, result) {
            if let Ok(to) = shard_of(s.shards, results[0]) {
                if target.spec_exchanges_panels(from.tensor_type.format, to.tensor_type.format)
                    || !needs_unpacking(from.tensor_type.format.layout.order) {
                } else {
                    lemma_unpack_amp(
                        s,
                        source,
                        WorkProvenance {
                            operation: operation.source,
                            value: Some(result),
                            reason: WorkReason::OperatorKernel,
                        },
                    );
                }
            }
        }
    }
}

pub proof fn lemma_defer_fused_output<M: Target>(
    target: &M,
    s: StateModel,
    operation: MidOperation,
    operations: Seq<MidOperation>,
    retained: Seq<MidValueId>,
)
    ensures
        match defer_fused_output(target, s, operation, operations, retained) {
            Ok((t, _)) => follows(s, t),
            Err(_) => true,
        },
{
    broadcast use group_follows;

    if let Some(offered) = offered_output(operation) {
        if operation.results@.len() != 1 || offered.source_input >= operation.inputs@.len() {
        } else {
            let result = operation.results@[0];
            let source = operation.inputs@[offered.source_input as int];
            let parts = match offered.transform {
                DeferredTransform::SplitLastAxisIntoLeading { parts } => parts,
            };
            if !used_once(operations, retained, result)
                || !claimed(operations, result, source, offered.transform) {
            } else if let Ok(sources) = value_shards(s, source) {
                if let Ok(first) = shard_of(s.shards, sources[0]) {
                    if first.tensor_type.shape.len() < 3 {
                    } else if parts == 0 || first.tensor_type.shape[2] % parts != 0 {
                    } else {
                        lemma_deferred_storage(target, s, operation, source, result, sources);
                        match deferred_storage(target, s, operation, source, result, sources) {
                            Err(_) => {},
                            Ok((a, None)) => {},
                            Ok((a, Some(shards))) => {
                                lemma_record_deferred(a, result, offered.transform, shards);
                                lemma_unmaterialize(
                                    record_deferred(a, result, offered.transform, shards),
                                    result,
                                );
                            },
                        }
                    }
                }
            }
        }
    }
}

pub proof fn lemma_defer_conversion(
    s: StateModel,
    operation: MidOperation,
    next: Option<MidOperation>,
    operations: Seq<MidOperation>,
    retained: Seq<MidValueId>,
)
    ensures
        match defer_conversion(s, operation, next, operations, retained) {
            Ok((t, _)) => follows(s, t),
            Err(_) => true,
        },
{
    broadcast use group_follows;

    if !(operation.kind is Rearrange) || next is None {
    } else if let Some(plan) = operation.conversion_plan {
        if !plan.strategy.spec_uses_intersections()
            || plan.output.materialization != OperandMaterialization::DispatchSlices
            || operation.inputs@.len() != 1
            || operation.results@.len() != 1
            || !used_once(operations, retained, operation.results@[0])
            || !takes_slices(next->Some_0, operation.results@[0]) {
        } else {
            let noted = StateModel {
                deferred_conversions: s.deferred_conversions.push(
                    (operation.results@[0], operation.inputs@[0]),
                ),
                ..s
            };
            lemma_bookkeeping(s, noted);
            lemma_unmaterialize(noted, operation.results@[0]);
        }
    }
}

pub proof fn lemma_bind_carried(
    s: StateModel,
    operation: MidOperation,
    repeat: MidRepeat,
    index: int,
    argument: LowShardId,
)
    ensures
        match bind_carried(s, operation, repeat, index, argument) {
            Ok((t, _)) => follows(s, t),
            Err(_) => true,
        },
{
    broadcast use group_follows;

    if let Ok(initial) = corresponding_shard(s, operation.inputs@[index], argument) {
        if let Ok(yielded) = corresponding_shard(s, repeat.body.yields@[index], argument) {
            if let Ok(result) = corresponding_shard(s, operation.results@[index], argument) {
                lemma_redefine(s, argument, ShardDefinition::Alias(initial));
                if let Ok(a) = redefine(s, argument, ShardDefinition::Alias(initial)) {
                    if yielded != argument {
                        lemma_redefine(a, yielded, ShardDefinition::WritableAlias(argument));
                    }
                    if let Ok(b) = (
                        if yielded != argument {
                            redefine(a, yielded, ShardDefinition::WritableAlias(argument))
                        } else { Ok(a) }
                    ) {
                        lemma_redefine(b, result, ShardDefinition::Alias(initial));
                    }
                }
            }
        }
    }
}

pub proof fn lemma_carried_from(
    s: StateModel,
    operation: MidOperation,
    repeat: MidRepeat,
    tile: u16,
    index: int,
    done: Seq<RepeatCarried>,
)
    ensures
        match carried_from(s, operation, repeat, tile, index, done) {
            Ok((t, _)) => follows(s, t),
            Err(_) => true,
        },
    decreases repeat.carried_inputs - index,
{
    broadcast use group_follows;

    if index >= repeat.carried_inputs {
    } else {
        match find_local_shard(s, repeat.body.arguments@[index], tile) {
            Err(_) => {},
            Ok(None) => {
                lemma_carried_from(s, operation, repeat, tile, index + 1, done);
            },
            Ok(Some(argument)) => {
                lemma_bind_carried(s, operation, repeat, index, argument);
                if let Ok((next, carried)) = bind_carried(s, operation, repeat, index, argument) {
                    lemma_carried_from(
                        next,
                        operation,
                        repeat,
                        tile,
                        index + 1,
                        done.push(carried),
                    );
                }
            },
        }
    }
}

pub proof fn lemma_lower_operator<M: Target>(target: &M, s: StateModel, operation: MidOperation)
    ensures
        match lower_operator(target, s, operation) {
            Ok(t) => follows(s, t),
            Err(_) => true,
        },
{
    broadcast use group_follows;

    if let Some(plan) = operation.operator_plan {
        match plan.dispatch {
            OperatorDispatch::Pointwise { kernel, input_mapping } => {
                lemma_lower_pointwise(s, operation, kernel@, input_mapping, plan.requirements@);
            },
            OperatorDispatch::BlockedGemm {
                            initialize,
                            accumulate,
                            inner_block,
                            output_column_block,
                            distribution,
                            orientation,
                        } => {
                lemma_lower_blocked_gemm(
                    target,
                    s,
                    operation,
                    GemmKernels {
                        initialize: initialize@,
                        accumulate: accumulate@,
                        requirements: plan.requirements@,
                    },
                    inner_block,
                    output_column_block,
                    orientation,
                    distribution,
                );
            },
            OperatorDispatch::BlockedAttention {
                            query_key,
                            probability_value,
                            query_block_rows,
                            key_block_rows,
                            padded_query_dimension,
                            padded_value_dimension,
                        } => {
                lemma_lower_blocked_attention(
                    target,
                    s,
                    operation,
                    query_key@,
                    probability_value@,
                    AttentionSizes {
                        query_block_rows,
                        key_columns: key_block_rows,
                        padded_query_dimension,
                        padded_value_dimension,
                    },
                    plan.requirements@,
                );
            },
            OperatorDispatch::MaterializedAttention {
                            query_key,
                            probability_value,
                            query_block_rows,
                            padded_key_rows,
                            padded_query_dimension,
                            padded_value_dimension,
                        } => {
                lemma_lower_materialized_attention(
                    target,
                    s,
                    operation,
                    query_key@,
                    probability_value@,
                    AttentionSizes {
                        query_block_rows,
                        key_columns: padded_key_rows,
                        padded_query_dimension,
                        padded_value_dimension,
                    },
                    plan.requirements@,
                );
            },
            OperatorDispatch::SplitHeads => {
                lemma_lower_split_heads(target, s, operation, plan.operator);
            },
        }
    }
}

#[verifier::spinoff_prover]
#[verifier::rlimit(60)]
pub proof fn lemma_lower_operations_from<M: Target>(
    target: &M,
    s: StateModel,
    operations: Seq<MidOperation>,
    retained: Seq<MidValueId>,
    checkpoints: bool,
    breakpoint: u8,
    k: int,
)
    ensures
        match lower_operations_from(target, s, operations, retained, checkpoints, breakpoint, k) {
            Ok(t) => follows(s, t),
            Err(_) => true,
        },
    decreases operations, operations.len() - k,
{
    broadcast use group_follows;

    if k < 0 || k >= operations.len() {
    } else {
        let operation = operations[k];
        lemma_defer_fused_output(target, s, operation, operations, retained);
        match defer_fused_output(target, s, operation, operations, retained) {
            Err(_) => {},
            Ok((a, true)) => {
                lemma_lower_operations_from(
                    target,
                    a,
                    operations,
                    retained,
                    checkpoints,
                    breakpoint,
                    k + 1,
                );
            },
            Ok((a, false)) => {
                lemma_defer_conversion(
                    a,
                    operation,
                    following(operations, k),
                    operations,
                    retained,
                );
                match defer_conversion(
                    a,
                    operation,
                    following(operations, k),
                    operations,
                    retained,
                ) {
                    Err(_) => {},
                    Ok((b, true)) => {
                        lemma_lower_operations_from(
                            target,
                            b,
                            operations,
                            retained,
                            checkpoints,
                            breakpoint,
                            k + 1,
                        );
                    },
                    Ok((b, false)) => {
                        match operation.kind {
                            MidOperationKind::Repeat(repeat) => {
                                lemma_lower_repeat(target, b, operation, repeat);
                            },
                            MidOperationKind::Operator(_) => {
                                lemma_lower_operator(target, b, operation);
                            },
                            _ => {
                                lemma_lower_conversion(target, b, operation);
                            },
                        }
                        if let Ok(c) = (
                            match operation.kind {
                                MidOperationKind::Repeat(repeat) => lower_repeat(
                                    target,
                                    b,
                                    operation,
                                    repeat,
                                ),
                                MidOperationKind::Operator(_) => lower_operator(
                                    target,
                                    b,
                                    operation,
                                ),
                                _ => lower_conversion(target, b, operation),
                            }
                        ) {
                            assert(follows(s, c));
                            if is_checked(operation, checkpoints) {
                                lemma_append_checkpoint(c, operation, breakpoint);
                                lemma_lower_operations_from(
                                    target,
                                    append_checkpoint(c, operation, breakpoint),
                                    operations,
                                    retained,
                                    checkpoints,
                                    other_breakpoint(breakpoint),
                                    k + 1,
                                );
                            } else {
                                lemma_lower_operations_from(
                                    target,
                                    c,
                                    operations,
                                    retained,
                                    checkpoints,
                                    breakpoint,
                                    k + 1,
                                );
                            }
                        }
                    },
                }
            },
        }
    }
}

pub proof fn lemma_place_shards_from(
    s: StateModel,
    value: MidValue,
    shards: Seq<(u16, Seq<ShardExtent>)>,
    i: int,
    done: Seq<LowShardId>,
)
    ensures
        match place_shards_from(s, value, shards, i, done) {
            Ok((t, _)) => follows(s, t) && t.phases == s.phases,
            Err(_) => true,
        },
    decreases shards.len() - i,
{
    broadcast use group_follows;

    if i >= shards.len() {
    } else {
        lemma_push_shard(s, value_shard(value, shards[i].0, shards[i].1));
        if let Ok((next, id)) = push_shard(s, value_shard(value, shards[i].0, shards[i].1)) {
            lemma_place_shards_from(next, value, shards, i + 1, done.push(id));
        }
    }
}

pub proof fn lemma_place_rotated_from(
    s: StateModel,
    value: MidValue,
    shards: Seq<(u16, Seq<ShardExtent>)>,
    bytes: Seq<u64>,
    offset: u16,
    tile_count: u16,
    loads: Seq<u64>,
    i: int,
    done: Seq<LowShardId>,
)
    ensures
        match place_rotated_from(s, value, shards, bytes, offset, tile_count, loads, i, done) {
            Ok((t, _, _)) => follows(s, t) && t.phases == s.phases,
            Err(_) => true,
        },
    decreases shards.len() - i,
{
    broadcast use group_follows;

    if i >= shards.len() {
    } else {
        let tile = rotated(shards[i].0 as int, offset, tile_count);
        if loads[tile] + bytes[i] > u64::MAX {
        } else {
            lemma_push_shard(s, value_shard(value, tile as u16, shards[i].1));
            if let Ok((next, id)) = push_shard(s, value_shard(value, tile as u16, shards[i].1)) {
                lemma_place_rotated_from(
                    next,
                    value,
                    shards,
                    bytes,
                    offset,
                    tile_count,
                    loads.update(tile, (loads[tile] + bytes[i]) as u64),
                    i + 1,
                    done.push(id),
                );
            }
        }
    }
}

pub proof fn lemma_place_rotated<M: Target>(
    target: &M,
    s: StateModel,
    value: MidValue,
    tile_count: u16,
    shards: Seq<(u16, Seq<ShardExtent>)>,
    p: Placement,
)
    ensures
        match place_rotated(target, s, value, tile_count, shards, p) {
            Ok((t, _)) => work_follows(s, t) && t.phases == s.phases,
            Err(_) => true,
        },
{
    broadcast use group_follows;

    if let Ok(bytes) = shard_bytes_from(target, value, shards, 0, Seq::empty()) {
        let known = offset_from(p.offsets, value.storage_group, 0);
        let offset = match known {
            Some(offset) => offset,
            None => best_offset(p.loads, bytes, tile_count),
        };
        lemma_place_rotated_from(
            s,
            value,
            shards,
            bytes,
            offset,
            tile_count,
            p.loads,
            0,
            Seq::empty(),
        );
        if let Ok((next, _, ids)) = place_rotated_from(
            s,
            value,
            shards,
            bytes,
            offset,
            tile_count,
            p.loads,
            0,
            Seq::empty(),
        ) {
            lemma_follows_keeps_values(s, next);
            assert(StateModel {
                canonical: s.canonical,
                ..set_shards(next, value.id, ids)
            } == next);
        }
    }
}

pub proof fn lemma_place_value<M: Target>(
    target: &M,
    s: StateModel,
    graph: MidGraph,
    value: MidValue,
    tile_count: u16,
    p: Placement,
)
    ensures
        match place_value(target, s, graph, value, tile_count, p) {
            Ok((t, _)) => work_follows(s, t) && t.phases == s.phases,
            Err(_) => true,
        },
{
    broadcast use group_follows;

    let declared = value.tensor_type.format.layout.tiling.tile_count;
    if declared == 0 || declared > tile_count {
    } else if let Ok(resolved) = target.spec_resolve(
        value.tensor_type@.format.layout,
        value.tensor_type@.shape,
    ) {
        if is_rotated(graph, value) {
            lemma_place_rotated(target, s, value, tile_count, resolved.shards, p);
        } else {
            lemma_place_shards_from(s, value, resolved.shards, 0, Seq::empty());
            if let Ok((next, ids)) = place_shards_from(
                s,
                value,
                resolved.shards,
                0,
                Seq::empty(),
            ) {
                lemma_follows_keeps_values(s, next);
                assert(StateModel {
                    canonical: s.canonical,
                    ..set_shards(next, value.id, ids)
                } == next);
            }
        }
    }
}

pub proof fn lemma_place_values_from<M: Target>(
    target: &M,
    s: StateModel,
    graph: MidGraph,
    tile_count: u16,
    v: int,
    p: Placement,
)
    ensures
        match place_values_from(target, s, graph, tile_count, v, p) {
            Ok(t) => work_follows(s, t) && t.phases == s.phases,
            Err(_) => true,
        },
    decreases graph.values@.len() - v,
{
    broadcast use group_follows;

    if v >= graph.values@.len() {
        assert(StateModel { canonical: s.canonical, ..s } == s);
    } else {
        lemma_place_value(target, s, graph, graph.values@[v], tile_count, p);
        if let Ok((next, more)) = place_value(target, s, graph, graph.values@[v], tile_count, p) {
            lemma_place_values_from(target, next, graph, tile_count, v + 1, more);
            if let Ok(t) = place_values_from(target, next, graph, tile_count, v + 1, more) {
                lemma_work_follows_on(s, next, t);
            }
        }
    }
}

pub proof fn lemma_record_deferred(
    s: StateModel,
    result: MidValueId,
    transform: DeferredTransform,
    shards: Seq<LowShardId>,
)
    ensures
        follows(s, record_deferred(s, result, transform, shards)),
{
    lemma_bookkeeping(s, record_deferred(s, result, transform, shards));
}

/// No step changes the shards of a value.
pub proof fn lemma_follows_keeps_values(s: StateModel, t: StateModel)
    requires
        follows(s, t),
    ensures
        t.canonical == s.canonical,
{
    reveal(follows);
}

/// What a schedule notes of its values is not part of the work.
proof fn lemma_notes_stay_sound(s: StateModel, t: StateModel)
    requires
        is_sound(s),
        t == (StateModel { canonical: t.canonical, ..s }),
    ensures
        is_sound(t),
{
    assert forall|i: int| 0 <= i < t.tiles.len() implies (#[trigger] t.tiles[i]).tile == i
        && list_leads(t, t.tiles[i]) by {
        assert(list_leads(s, s.tiles[i]));
        assert forall|k: int| 0 <= k < t.tiles[i].work.len() implies leads_somewhere(
            t,
            t.tiles[i].tile,
            #[trigger] t.tiles[i].work[k],
        ) by {
            assert(leads_somewhere(s, s.tiles[i].tile, s.tiles[i].work[k]));
        }
    }
    assert forall|r: int| 0 <= r < t.repeat_runs.len() implies list_leads(
        t,
        (#[trigger] t.repeat_runs[r]).body,
    ) by {
        let body = t.repeat_runs[r].body;
        assert(list_leads(s, s.repeat_runs[r].body));
        assert forall|k: int| 0 <= k < body.work.len() implies leads_somewhere(
            t,
            body.tile,
            #[trigger] body.work[k],
        ) by {
            assert(leads_somewhere(s, body.tile, body.work[k]));
        }
    }
}

/// A step from a schedule that may also note other shards for its values.
pub open spec fn work_follows(s: StateModel, t: StateModel) -> bool {
    follows(s, StateModel { canonical: s.canonical, ..t })
}

pub proof fn lemma_set_shards(s: StateModel, value: MidValueId, ids: Seq<LowShardId>)
    ensures
        work_follows(s, set_shards(s, value, ids)),
{
    lemma_bookkeeping(s, set_shards(s, value, ids));
}

/// A step stays one where the same shards are noted before it and after it.
proof fn lemma_notes_stay_apart(s: StateModel, t: StateModel, ids: Seq<Seq<LowShardId>>)
    requires
        follows(s, t),
    ensures
        follows(StateModel { canonical: ids, ..s }, StateModel { canonical: ids, ..t }),
{
    reveal(follows);
    let a = StateModel { canonical: ids, ..s };
    let b = StateModel { canonical: ids, ..t };
    assert(extends(a, b));
    if is_sound(a) {
        lemma_notes_stay_sound(a, s);
        lemma_notes_stay_sound(t, b);
        assert forall|p: int| a.phases.len() <= p < b.phases.len() implies #[trigger] is_met(
            b,
            p,
        ) by {
            assert(is_met(t, p));
            assert forall|i: int| 0 <= i < b.tiles.len() implies #[trigger] tile_meets(
                b,
                i,
                p,
            ) by {
                assert(tile_meets(t, i, p));
                let work = t.tiles[i].work;
                let depth = choose|depth: nat| #[trigger] meets_within(t, work, p, depth);
                lemma_still_meets(t, b, work, work, p, depth);
            }
        }
    }
}

proof fn lemma_work_follows_on(a: StateModel, b: StateModel, c: StateModel)
    requires
        work_follows(a, b),
        work_follows(b, c),
    ensures
        work_follows(a, c),
{
    let between = StateModel { canonical: b.canonical, ..c };
    lemma_notes_stay_apart(b, between, a.canonical);
    assert(StateModel { canonical: a.canonical, ..between } == StateModel {
        canonical: a.canonical,
        ..c
    });
    lemma_follows_on(
        a,
        StateModel { canonical: a.canonical, ..b },
        StateModel { canonical: a.canonical, ..c },
    );
}

/// What a schedule notes of values and of deferred work is not part of the work.
proof fn lemma_bookkeeping(s: StateModel, t: StateModel)
    requires
        t == (StateModel {
            canonical: t.canonical,
            deferred_conversions: t.deferred_conversions,
            deferred_values: t.deferred_values,
            ..s
        }),
    ensures
        work_follows(s, t),
        t.canonical == s.canonical ==> follows(s, t),
{
    reveal(follows);
    let r = StateModel { canonical: s.canonical, ..t };
    assert(t.canonical == s.canonical ==> r == t);
    assert(extends(s, r));
    if is_sound(s) {
        assert forall|i: int| 0 <= i < r.tiles.len() implies (#[trigger] r.tiles[i]).tile == i
            && list_leads(r, r.tiles[i]) by {
            lemma_still_leads(s, r, s.tiles[i]);
        }
        assert forall|k: int| 0 <= k < r.repeat_runs.len() implies list_leads(
            r,
            (#[trigger] r.repeat_runs[k]).body,
        ) by {
            lemma_still_leads(s, r, s.repeat_runs[k].body);
        }
    }
}

pub proof fn lemma_append_checkpoint(s: StateModel, operation: MidOperation, breakpoint: u8)
    ensures
        follows(s, append_checkpoint(s, operation, breakpoint)),
{
    broadcast use group_follows;

    if let Some(source) = operation.source {
        lemma_push_everywhere(s, TileWork::Checkpoint(source, breakpoint));
    }
}

/// All entries of the lists lead somewhere.
pub open spec fn bodies_lead(s: StateModel, body: Seq<WorkListModel>) -> bool {
    forall|t: int|
        0 <= t < body.len() ==> list_leads(s, #[trigger] body[t]) && body[t].tile == t
}

proof fn lemma_bodies_still_lead(s: StateModel, t: StateModel, body: Seq<WorkListModel>)
    requires
        extends(s, t),
        bodies_lead(s, body),
    ensures
        bodies_lead(t, body),
{
    assert forall|i: int| 0 <= i < body.len() implies list_leads(t, #[trigger] body[i])
        && body[i].tile == i by {
        lemma_still_leads(s, t, body[i]);
    }
}

/// Binding carried values redefines shards and touches no work.
proof fn lemma_carrying_keeps_work(
    s: StateModel,
    operation: MidOperation,
    repeat: MidRepeat,
    tile: u16,
    index: int,
    done: Seq<RepeatCarried>,
)
    ensures
        match carried_from(s, operation, repeat, tile, index, done) {
            Ok((t, _)) => t.tiles == s.tiles && t.repeat_runs == s.repeat_runs && t.phases
                == s.phases,
            Err(_) => true,
        },
    decreases repeat.carried_inputs - index,
{
    if index < repeat.carried_inputs {
        match find_local_shard(s, repeat.body.arguments@[index], tile) {
            Err(_) => {},
            Ok(None) => {
                lemma_carrying_keeps_work(s, operation, repeat, tile, index + 1, done);
            },
            Ok(Some(argument)) => {
                if let Ok((next, carried)) = bind_carried(s, operation, repeat, index, argument) {
                    lemma_carrying_keeps_work(
                        next,
                        operation,
                        repeat,
                        tile,
                        index + 1,
                        done.push(carried),
                    );
                }
            },
        }
    }
}

/// What one tile's repeat adds: one run, and one entry that leads to it.
pub open spec fn adds_repeat(
    s: StateModel,
    t: StateModel,
    repeat: MidRepeat,
    body: WorkListModel,
    tile: int,
) -> bool {
    &&& 0 <= tile < s.tiles.len()
    &&& t.phases == s.phases
    &&& t.repeat_runs.len() == s.repeat_runs.len() + 1
    &&& t.repeat_runs.last().body == body
    &&& t.repeat_runs.last().count == repeat.count
    &&& s.repeat_runs.len() <= u32::MAX
    &&& t.tiles == s.tiles.update(
        tile,
        WorkListModel {
            work: s.tiles[tile].work.push(
                TileWork::Repeat(RepeatRunId(s.repeat_runs.len() as u32)),
            ),
            ..s.tiles[tile]
        },
    )
}

pub proof fn lemma_append_tile_repeat(
    s: StateModel,
    operation: MidOperation,
    repeat: MidRepeat,
    body: Seq<WorkListModel>,
    tile: u16,
)
    ensures
        match append_tile_repeat(s, operation, repeat, body, tile) {
            Ok(t) => {
                &&& extends(s, t)
                &&& is_sound(s) && bodies_lead(s, body) ==> is_sound(t)
                &&& adds_repeat(s, t, repeat, body[tile as int], tile as int)
            },
            Err(_) => true,
        },
{
    lemma_carried_from(s, operation, repeat, tile, 0, Seq::empty());
    if let Ok((next, carried)) = carried_from(s, operation, repeat, tile, 0, Seq::empty()) {
        lemma_carrying_keeps_work(s, operation, repeat, tile, 0, Seq::empty());
        if let Ok(invariants) = invariants_from(next, operation, repeat, tile, 0, Seq::empty()) {
            if let Ok(iterated) = iterated_from(next, repeat, tile, 0, Seq::empty()) {
                if tile < body.len() {
                    reveal(follows);
                    let run = RepeatModel {
                        provenance: WorkProvenance {
                            operation: operation.source,
                            value: first_result(operation),
                            reason: WorkReason::Repeat,
                        },
                        count: repeat.count,
                        carried,
                        invariants,
                        iterated,
                        body: body[tile as int],
                    };
                    lemma_append_repeat(next, tile, run);
                    if let Ok(t) = append_repeat(next, tile, run) {
                        lemma_extends_on(s, next, t);
                        if bodies_lead(s, body) {
                            lemma_bodies_still_lead(s, next, body);
                            assert(list_leads(next, body[tile as int]));
                        }
                    }
                }
            }
        }
    }
}

/// What the repeats of the tiles from `tile` on add: a run for each of them,
/// in the order of the tiles, and at the end of each list the entry that leads
/// to the tile's run.
pub open spec fn adds_repeats(
    s: StateModel,
    t: StateModel,
    repeat: MidRepeat,
    body: Seq<WorkListModel>,
    tile: int,
    count: int,
) -> bool {
    &&& t.phases == s.phases
    &&& t.repeat_runs.len() == s.repeat_runs.len() + (count - tile)
    &&& tile < count ==> t.repeat_runs.len() <= u32::MAX + 1
    &&& forall|i: int|
        tile <= i < count && i < s.tiles.len() ==> #[trigger] t.tiles[i].work
            == s.tiles[i].work.push(
            TileWork::Repeat(RepeatRunId((s.repeat_runs.len() + (i - tile)) as u32)),
        )
    &&& forall|i: int|
        tile <= i < count ==> runs_body(
            #[trigger] t.repeat_runs[s.repeat_runs.len() + (i - tile)],
            repeat,
            body[i],
        )
    &&& forall|i: int| 0 <= i < tile && i < s.tiles.len() ==> #[trigger] t.tiles[i] == s.tiles[i]
}

/// A run of a body, as often as the repeat asks.
pub open spec fn runs_body(run: RepeatModel, repeat: MidRepeat, body: WorkListModel) -> bool {
    run.body == body && run.count == repeat.count
}

pub proof fn lemma_append_tile_repeats_from(
    s: StateModel,
    operation: MidOperation,
    repeat: MidRepeat,
    body: Seq<WorkListModel>,
    count: u16,
    tile: int,
)
    requires
        0 <= tile <= count,
    ensures
        match append_tile_repeats_from(s, operation, repeat, body, count, tile) {
            Ok(t) => {
                &&& extends(s, t)
                &&& is_sound(s) && bodies_lead(s, body) ==> is_sound(t)
                &&& adds_repeats(s, t, repeat, body, tile, count as int)
            },
            Err(_) => true,
        },
    decreases count - tile,
{
    if tile < count {
        lemma_append_tile_repeat(s, operation, repeat, body, tile as u16);
        if let Ok(next) = append_tile_repeat(s, operation, repeat, body, tile as u16) {
            lemma_append_tile_repeats_from(next, operation, repeat, body, count, tile + 1);
            if let Ok(t) = append_tile_repeats_from(
                next,
                operation,
                repeat,
                body,
                count,
                tile + 1,
            ) {
                lemma_extends_on(s, next, t);
                if bodies_lead(s, body) {
                    lemma_bodies_still_lead(s, next, body);
                }
                let base = s.repeat_runs.len();
                assert(t.repeat_runs[base as int] == next.repeat_runs[base as int]);
                assert forall|i: int| tile <= i < count implies runs_body(
                    #[trigger] t.repeat_runs[base + (i - tile)],
                    repeat,
                    body[i],
                ) by {
                    if i > tile {
                        assert(base + (i - tile) == next.repeat_runs.len() + (i - (tile + 1)));
                    }
                }
                assert forall|i: int|
                    tile <= i < count && i < s.tiles.len() implies #[trigger] t.tiles[i].work
                    == s.tiles[i].work.push(
                    TileWork::Repeat(RepeatRunId((base + (i - tile)) as u32)),
                ) by {
                    if i > tile {
                        assert(base + (i - tile) == next.repeat_runs.len() + (i - (tile + 1)));
                        assert(next.tiles[i] == s.tiles[i]);
                    } else {
                        assert(t.tiles[i] == next.tiles[i]);
                    }
                }
            }
        }
    }
}

/// A schedule with the lists of all tiles emptied stays sound.
proof fn lemma_no_work(s: StateModel)
    requires
        is_sound(s),
    ensures
        is_sound(StateModel { tiles: no_work(s.tile_count), ..s }),
{
    let t = StateModel { tiles: no_work(s.tile_count), ..s };
    assert(t.tiles.len() == s.tile_count);
    assert forall|r: int| 0 <= r < t.repeat_runs.len() implies list_leads(
        t,
        (#[trigger] t.repeat_runs[r]).body,
    ) by {
        lemma_still_leads(s, t, s.repeat_runs[r].body);
    }
}

/// Putting the lists around a repeat back keeps them, and a sound schedule
/// sound.
proof fn lemma_put_back(s: StateModel, lowered: StateModel)
    requires
        follows(StateModel { tiles: no_work(s.tile_count), ..s }, lowered),
        is_sound(s) ==> is_sound(StateModel { tiles: no_work(s.tile_count), ..s }),
    ensures
        extends(s, StateModel { tiles: s.tiles, ..lowered }),
        is_sound(s) ==> is_sound(StateModel { tiles: s.tiles, ..lowered }) && bodies_lead(
            StateModel { tiles: s.tiles, ..lowered },
            lowered.tiles,
        ) && tiles_agree(lowered) && meets_new_phases(s, lowered) && lowered.tiles.len()
            == lowered.tile_count,
{
    reveal(follows);
    let start = StateModel { tiles: no_work(s.tile_count), ..s };
    let back = StateModel { tiles: s.tiles, ..lowered };
    assert forall|i: int| 0 <= i < s.shards.len() implies crate::schedule::same_shard(
        #[trigger] s.shards[i],
        back.shards[i],
    ) by {
        assert(start.shards[i] == s.shards[i]);
    }
    assert(extends(s, back));
    if is_sound(s) {
        assert forall|i: int| 0 <= i < back.tiles.len() implies (#[trigger] back.tiles[i]).tile == i
            && list_leads(back, back.tiles[i]) by {
            lemma_still_leads(s, back, s.tiles[i]);
        }
        assert forall|list: WorkListModel| list_leads(lowered, list) implies #[trigger] list_leads(
            back,
            list,
        ) by {
            lemma_still_leads(lowered, back, list);
        }
        assert(is_sound(back));
    }
}

pub proof fn lemma_lower_repeat<M: Target>(
    target: &M,
    s: StateModel,
    operation: MidOperation,
    repeat: MidRepeat,
)
    ensures
        match lower_repeat(target, s, operation, repeat) {
            Ok(t) => follows(s, t),
            Err(_) => true,
        },
    decreases repeat, 0int,
{
    if is_consistent(operation, repeat) && not_in_place_from(repeat, 0) is None {
        let start = StateModel { tiles: no_work(s.tile_count), ..s };
        lemma_lower_operations_from(
            target,
            start,
            repeat.body.operations@,
            repeat.body.yields@,
            false,
            0,
            0,
        );
        if let Ok(lowered) = lower_operations_from(
            target,
            start,
            repeat.body.operations@,
            repeat.body.yields@,
            false,
            0,
            0,
        ) {
            if is_sound(s) {
                lemma_no_work(s);
            }
            lemma_put_back(s, lowered);
            let back = StateModel { tiles: s.tiles, ..lowered };
            lemma_append_tile_repeats_from(
                back,
                operation,
                repeat,
                lowered.tiles,
                lowered.tile_count,
                0,
            );
            reveal(follows);
            if let Ok(t) = append_tile_repeats_from(
                back,
                operation,
                repeat,
                lowered.tiles,
                lowered.tile_count,
                0,
            ) {
                lemma_extends_on(s, back, t);
                if is_sound(s) {
                    lemma_bodies_meet(start, lowered, back, t, repeat);
                }
            }
        }
    }
}

/// Lowering the body of a repeat keeps the schedule around it.
pub proof fn lemma_repeat_start<M: Target>(target: &M, s: StateModel, repeat: MidRepeat)
    requires
        is_sound(s),
    ensures
        match lower_operations_from(
            target,
            StateModel { tiles: no_work(s.tile_count), ..s },
            repeat.body.operations@,
            repeat.body.yields@,
            false,
            0,
            0,
        ) {
            Ok(lowered) => {
                &&& extends(s, StateModel { tiles: s.tiles, ..lowered })
                &&& lowered.tile_count == s.tiles.len()
            },
            Err(_) => true,
        },
{
    let start = StateModel { tiles: no_work(s.tile_count), ..s };
    lemma_lower_operations_from(
        target,
        start,
        repeat.body.operations@,
        repeat.body.yields@,
        false,
        0,
        0,
    );
    if let Ok(lowered) = lower_operations_from(
        target,
        start,
        repeat.body.operations@,
        repeat.body.yields@,
        false,
        0,
        0,
    ) {
        lemma_no_work(s);
        lemma_put_back(s, lowered);
    }
}

/// The exchanges that the lists of a repeat's body meet, its runs meet.
proof fn lemma_bodies_meet(
    start: StateModel,
    lowered: StateModel,
    back: StateModel,
    t: StateModel,
    repeat: MidRepeat,
)
    requires
        meets_new_phases(start, lowered),
        back == (StateModel { tiles: back.tiles, ..lowered }),
        back.tiles.len() == lowered.tiles.len() == lowered.tile_count,
        adds_repeats(back, t, repeat, lowered.tiles, 0, lowered.tile_count as int),
        extends(back, t),
    ensures
        meets_new_phases(start, t),
{
    assert forall|p: int| start.phases.len() <= p < t.phases.len() implies #[trigger] is_met(
        t,
        p,
    ) by {
        assert(is_met(lowered, p));
        assert forall|i: int| 0 <= i < t.tiles.len() implies #[trigger] tile_meets(t, i, p) by {
            assert(tile_meets(lowered, i, p));
            let body = lowered.tiles[i].work;
            let depth = choose|depth: nat| #[trigger] meets_within(lowered, body, p, depth);
            lemma_still_meets(lowered, t, body, body, p, depth);
            let r = back.repeat_runs.len() + (i - 0);
            assert(runs_body(t.repeat_runs[r], repeat, lowered.tiles[i]));
            let entry = TileWork::Repeat(RepeatRunId(r as u32));
            assert(t.tiles[i].work == back.tiles[i].work.push(entry));
            assert(t.tiles[i].work.last() == entry);
            assert(t.tiles[i].work.contains(entry));
            assert(meets_within(t, t.tiles[i].work, p, depth + 1)) by {
                assert(meets_within(t, t.repeat_runs[r].body.work, p, depth));
            }
        }
    }
}

/// The run of a repeat that a list ends with.
pub open spec fn closing_repeat(t: StateModel, tile: int) -> RepeatModel {
    t.repeat_runs[t.repeat_runs.len() - t.tiles.len() + tile]
}

/// A repeat ends every tile's list with a run of its own, as often as the
/// repeat asks, and the bodies of all tiles meet the same exchanges in the same
/// order.
pub proof fn lemma_repeats_agree<M: Target>(
    target: &M,
    s: StateModel,
    operation: MidOperation,
    repeat: MidRepeat,
)
    requires
        is_sound(s),
    ensures
        match lower_repeat(target, s, operation, repeat) {
            Ok(t) => {
                &&& t.repeat_runs.len() >= t.tiles.len() == s.tiles.len()
                &&& forall|i: int|
                    0 <= i < t.tiles.len() ==> {
                        &&& (#[trigger] t.tiles[i]).work == s.tiles[i].work.push(
                            TileWork::Repeat(
                                RepeatRunId((t.repeat_runs.len() - t.tiles.len() + i) as u32),
                            ),
                        )
                        &&& closing_repeat(t, i).count == repeat.count
                    }
                &&& forall|i: int, j: int|
                    0 <= i < t.tiles.len() && 0 <= j < t.tiles.len() ==> markers(
                        (#[trigger] closing_repeat(t, i)).body.work,
                    ) == markers((#[trigger] closing_repeat(t, j)).body.work)
            },
            Err(_) => true,
        },
{
    if let Ok(t) = lower_repeat(target, s, operation, repeat) {
        let lowered = lower_operations_from(
            target,
            StateModel { tiles: no_work(s.tile_count), ..s },
            repeat.body.operations@,
            repeat.body.yields@,
            false,
            0,
            0,
        )->Ok_0;
        lemma_repeat_lists(target, s, operation, repeat);
        let back = StateModel { tiles: s.tiles, ..lowered };
        let base = back.repeat_runs.len();
        assert forall|i: int| 0 <= i < t.tiles.len() implies {
            &&& (#[trigger] t.tiles[i]).work == s.tiles[i].work.push(
                TileWork::Repeat(RepeatRunId((t.repeat_runs.len() - t.tiles.len() + i) as u32)),
            )
            &&& closing_repeat(t, i).count == repeat.count
        } by {
            assert(t.tiles[i].work == back.tiles[i].work.push(
                TileWork::Repeat(RepeatRunId((base + (i - 0)) as u32)),
            ));
            assert(runs_body(t.repeat_runs[base + (i - 0)], repeat, lowered.tiles[i]));
        }
        assert forall|i: int, j: int|
            0 <= i < t.tiles.len() && 0 <= j < t.tiles.len() implies markers(
            (#[trigger] closing_repeat(t, i)).body.work,
        ) == markers((#[trigger] closing_repeat(t, j)).body.work) by {
            assert(runs_body(t.repeat_runs[base + (i - 0)], repeat, lowered.tiles[i]));
            assert(runs_body(t.repeat_runs[base + (j - 0)], repeat, lowered.tiles[j]));
            assert(markers(lowered.tiles[i].work) == markers(lowered.tiles[j].work));
        }
    }
}

/// How a repeat adds to the lists, from the lists of its body.
proof fn lemma_repeat_lists<M: Target>(
    target: &M,
    s: StateModel,
    operation: MidOperation,
    repeat: MidRepeat,
)
    requires
        is_sound(s),
    ensures
        match lower_repeat(target, s, operation, repeat) {
            Ok(t) => match lower_operations_from(
                target,
                StateModel { tiles: no_work(s.tile_count), ..s },
                repeat.body.operations@,
                repeat.body.yields@,
                false,
                0,
                0,
            ) {
                Ok(lowered) => {
                    &&& adds_repeats(
                        StateModel { tiles: s.tiles, ..lowered },
                        t,
                        repeat,
                        lowered.tiles,
                        0,
                        s.tiles.len() as int,
                    )
                    &&& tiles_agree(lowered)
                    &&& lowered.tiles.len() == t.tiles.len() == s.tiles.len()
                },
                Err(_) => false,
            },
            Err(_) => true,
        },
{
    let start = StateModel { tiles: no_work(s.tile_count), ..s };
    if let Ok(t) = lower_repeat(target, s, operation, repeat) {
        lemma_lower_operations_from(
            target,
            start,
            repeat.body.operations@,
            repeat.body.yields@,
            false,
            0,
            0,
        );
        if let Ok(lowered) = lower_operations_from(
            target,
            start,
            repeat.body.operations@,
            repeat.body.yields@,
            false,
            0,
            0,
        ) {
            lemma_no_work(s);
            lemma_put_back(s, lowered);
            lemma_append_tile_repeats_from(
                StateModel { tiles: s.tiles, ..lowered },
                operation,
                repeat,
                lowered.tiles,
                lowered.tile_count,
                0,
            );
            assert(lowered.tiles.len() == s.tile_count && lowered.tile_count == s.tile_count) by {
                reveal(follows);
            }
        }
    }
}

/// A region of a sound schedule is sound, and meets all exchanges that it adds.
pub proof fn lemma_lower_region<M: Target>(
    target: &M,
    s: StateModel,
    operations: Seq<MidOperation>,
    retained: Seq<MidValueId>,
    checkpoints: bool,
)
    requires
        is_sound(s),
    ensures
        match lower_region(target, s, operations, retained, checkpoints) {
            Ok(t) => is_sound(t) && meets_new_phases(s, t) && t.tile_count == s.tile_count,
            Err(_) => true,
        },
{
    lemma_no_work(s);
    lemma_lower_operations_from(
        target,
        StateModel { tiles: no_work(s.tile_count), ..s },
        operations,
        retained,
        checkpoints,
        0,
        0,
    );
    reveal(follows);
}

/// The schedule of a graph's values alone is sound.
pub proof fn lemma_initial_state<M: Target>(target: &M, graph: MidGraph, tile_count: u16)
    ensures
        match initial_state(target, graph, tile_count) {
            Ok(t) => is_sound(t) && t.tile_count == tile_count && t.phases.len() == 0,
            Err(_) => true,
        },
{
    let start = empty_state(graph.values@.len(), tile_count);
    assert(start.tiles.len() == tile_count);
    assert(is_sound(start));
    lemma_place_values_from(
        target,
        start,
        graph,
        tile_count,
        0,
        Placement { loads: Seq::new(tile_count as nat, |t: int| 0u64), offsets: Seq::empty() },
    );
    reveal(follows);
    if let Ok(t) = initial_state(target, graph, tile_count) {
        lemma_notes_stay_sound(StateModel { canonical: start.canonical, ..t }, t);
    }
}

/// The schedule that a program consists of.
pub open spec fn schedule_of(s: StateModel, program: ProgramModel) -> bool {
    &&& program.tile_count == s.tile_count
    &&& program.shards == s.shards
    &&& program.exchange_phases == s.phases
    &&& program.tiles == s.tiles
    &&& program.kernel_runs == s.kernel_runs
    &&& program.local_copies == s.local_copies
    &&& program.repeat_runs == s.repeat_runs
}

/// Every tile meets every exchange, in its list or in the body of a repeat.
pub open spec fn meets_all_phases(s: StateModel) -> bool {
    forall|p: int| 0 <= p < s.phases.len() ==> #[trigger] is_met(s, p)
}

/// A lowered program is sound: shards and phases are found by their ids, every
/// phase moves something and is met by every tile, every tile has a list whose
/// entries all lead somewhere, both shards of a local copy and all operands of a
/// kernel are on the tile that has it in its list, a repeat runs a body of its
/// own tile, and all tiles meet the same exchanges in the same order, those
/// without transfers of their own too.
pub proof fn lemma_lowered_programs_are_sound<M: Target>(
    target: &M,
    graph: MidGraph,
    config: PipelineConfig,
)
    ensures
        match lowered(target, graph, config) {
            Ok(program) => exists|s: StateModel|
                #![trigger schedule_of(s, program)]
                is_sound(s) && meets_all_phases(s) && schedule_of(s, program),
            Err(_) => true,
        },
{
    if let Ok(program) = lowered(target, graph, config) {
        lemma_initial_state(target, graph, config.tile_count);
        if let Ok(start) = initial_state(target, graph, config.tile_count) {
            lemma_lower_region(
                target,
                start,
                graph.operations@,
                graph.outputs@,
                config.diagnostic_checkpoints,
            );
            if let Ok(s) = lower_region(
                target,
                start,
                graph.operations@,
                graph.outputs@,
                config.diagnostic_checkpoints,
            ) {
                assert(schedule_of(s, program));
                assert(meets_all_phases(s));
            }
        }
    }
}

} // verus!
