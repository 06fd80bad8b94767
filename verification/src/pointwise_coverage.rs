//! What pointwise operators compute: every output shard that is not empty, from
//! the elements of the inputs that it reads.

use crate::attention_coverage::still_sends;
use crate::carriage::{
    begins, lemma_added_transfer, lemma_append_phase, lemma_holds_on, lemma_still_exchanges,
    makes_exchange, sends, sources_agree,
};
use crate::extents::covers;
use crate::lookup::value_shards;
use crate::low::{
    ExchangeOrder, LowShardId, RunModel, ShardModel, ViewModel, WorkProvenance, WorkReason,
};
use crate::mid::{
    KernelModel, MidOperation, MidValueId, OperatorRequirementsModel, PointwiseInputMapping,
};
use crate::phase::{add_transfer, append_ordered_phase};
use crate::pointwise::{
    broadcast_of, broadcast_view_for_extents, is_empty, lower_pointwise, operator_run,
    pointwise_from, pointwise_source_from, pointwise_sources_from, receive_from,
};
use crate::product_coverage::{lemma_append_runs, lemma_begins_on, makes, only_adds_shards};
use crate::schedule_data::lemma_lower_pointwise;
use crate::schedule_regions::lemma_follows_keeps_values;
use crate::state::{shard_of, StateModel, TransfersModel};
use crate::tensor::ShardExtent;
use vstd::prelude::*;

verus! {

// ---------------------------------------------------------------- broadcasts

/// The element of a source that an output element reads: the last axes, and
/// the only element of an axis with one.
pub open spec fn read_element(source: ShardModel, element: Seq<int>) -> Seq<int> {
    Seq::new(
        source.extents.len(),
        |axis: int|
            if source.tensor_type.shape[axis] == 1 {
                0
            } else {
                element[axis + element.len() - source.extents.len()]
            },
    )
}

/// A source that serves an output rectangle holds all that its elements read,
/// and the view that is read is part of it.
pub proof fn lemma_broadcasts_hold_what_is_read(
    shards: Seq<ShardModel>,
    source: LowShardId,
    output: Seq<ShardExtent>,
    element: Seq<int>,
)
    requires
        broadcast_view_for_extents(shards, source, output) is Some,
        covers(output, element),
    ensures
        covers(
            broadcast_view_for_extents(shards, source, output)->Some_0.extents,
            read_element(shards[source.0 as int], element),
        ),
        covers(
            shards[source.0 as int].extents,
            read_element(shards[source.0 as int], element),
        ),
{
    let from = shards[source.0 as int];
    let view = broadcast_view_for_extents(shards, source, output)->Some_0;
    let read = read_element(from, element);
    assert forall|axis: int| 0 <= axis < view.extents.len() implies (
    #[trigger] view.extents[axis]).start <= read[axis] < view.extents[axis].logical_end by {
        assert(broadcast_of(from, output, axis) is Some);
        let at = axis + output.len() - from.extents.len();
        assert(output[at].start <= element[at] < output[at].logical_end);
    }
    assert forall|axis: int| 0 <= axis < from.extents.len() implies (
    #[trigger] from.extents[axis]).start <= read[axis] < from.extents[axis].logical_end by {
        assert(broadcast_of(from, output, axis) is Some);
        let at = axis + output.len() - from.extents.len();
        assert(output[at].start <= element[at] < output[at].logical_end);
    }
}

// ---------------------------------------------------------------- operands

/// A view is on a tile, or is recorded to be received there.
pub open spec fn is_received(
    shards: Seq<ShardModel>,
    transfers: TransfersModel,
    tile: u16,
    view: ViewModel,
    operand: Seq<ViewModel>,
) -> bool {
    &&& view.shard.0 < shards.len()
    &&& operand.len() == 1
    &&& operand[0].extents == view.extents
    &&& if shards[view.shard.0 as int].tile == tile {
        operand[0] == view
    } else {
        sends(transfers, view, operand[0])
    }
}

proof fn lemma_still_received(
    shards: Seq<ShardModel>,
    more: Seq<ShardModel>,
    before: TransfersModel,
    after: TransfersModel,
    tile: u16,
    view: ViewModel,
    operand: Seq<ViewModel>,
)
    requires
        begins(more, shards),
        still_sends(before, after),
        is_received(shards, before, tile, view, operand),
    ensures
        is_received(more, after, tile, view, operand),
{
    assert(more[view.shard.0 as int] == shards[view.shard.0 as int]);
}

/// The views are received, each for the operand at its place.
pub open spec fn are_received(
    shards: Seq<ShardModel>,
    transfers: TransfersModel,
    tile: u16,
    views: Seq<ViewModel>,
    operands: Seq<Seq<ViewModel>>,
) -> bool {
    &&& operands.len() <= views.len()
    &&& forall|i: int|
        0 <= i < operands.len() ==> is_received(
            shards,
            transfers,
            tile,
            views[i],
            #[trigger] operands[i],
        )
}

proof fn lemma_all_still_received(
    shards: Seq<ShardModel>,
    more: Seq<ShardModel>,
    before: TransfersModel,
    after: TransfersModel,
    tile: u16,
    views: Seq<ViewModel>,
    operands: Seq<Seq<ViewModel>>,
)
    requires
        begins(more, shards),
        still_sends(before, after),
        are_received(shards, before, tile, views, operands),
    ensures
        are_received(more, after, tile, views, operands),
{
    assert forall|i: int| 0 <= i < operands.len() implies is_received(
        more,
        after,
        tile,
        views[i],
        #[trigger] operands[i],
    ) by {
        lemma_still_received(shards, more, before, after, tile, views[i], operands[i]);
    }
}

proof fn lemma_receive_from(
    s: StateModel,
    tile: u16,
    views: Seq<ViewModel>,
    k: int,
    transfers: TransfersModel,
    done: Seq<Seq<ViewModel>>,
)
    requires
        done.len() == k <= views.len(),
        sources_agree(transfers),
        are_received(s.shards, transfers, tile, views, done),
    ensures
        match receive_from(s, tile, views, k, transfers, done) {
            Err(_) => true,
            Ok((t, (more, all))) => {
                &&& only_adds_shards(s, t)
                &&& sources_agree(more)
                &&& still_sends(transfers, more)
                &&& all.len() == views.len()
                &&& are_received(t.shards, more, tile, views, all)
            },
        },
    decreases views.len() - k,
{
    if k < views.len() {
        if let Ok(from) = shard_of(s.shards, views[k].shard) {
            if from.tile == tile {
                let next = done.push(seq![views[k]]);
                assert forall|i: int| 0 <= i < next.len() implies is_received(
                    s.shards,
                    transfers,
                    tile,
                    views[i],
                    #[trigger] next[i],
                ) by {
                    if i < done.len() {
                        assert(next[i] == done[i]);
                    }
                }
                lemma_receive_from(s, tile, views, k + 1, transfers, next);
            } else if let Ok((pushed, copy)) = crate::state::push_shard(
                s,
                crate::pointwise::receiving_shard(from, views[k].extents, tile),
            ) {
                let received = ViewModel { shard: copy, extents: views[k].extents };
                let more = add_transfer(transfers, views[k], received);
                let next = done.push(seq![received]);
                lemma_added_transfer(transfers, views[k], received);
                lemma_all_still_received(
                    s.shards,
                    pushed.shards,
                    transfers,
                    more,
                    tile,
                    views,
                    done,
                );
                assert forall|i: int| 0 <= i < next.len() implies is_received(
                    pushed.shards,
                    more,
                    tile,
                    views[i],
                    #[trigger] next[i],
                ) by {
                    if i < done.len() {
                        assert(next[i] == done[i]);
                    } else {
                        assert(pushed.shards[views[k].shard.0 as int] == from);
                    }
                }
                lemma_receive_from(pushed, tile, views, k + 1, more, next);
                if let Ok((t, (most, all))) = receive_from(s, tile, views, k, transfers, done) {
                    lemma_begins_on(s.shards, pushed.shards, t.shards);
                    assert forall|a: ViewModel, b: ViewModel| sends(transfers, a, b) implies
                        #[trigger] sends(most, a, b) by {
                        assert(sends(more, a, b));
                    }
                }
            }
        }
    }
}

// ---------------------------------------------------------------- outputs

/// The run of one output with its operands.
pub open spec fn pointwise_run(
    operation: MidOperation,
    kernel: KernelModel,
    requirements: OperatorRequirementsModel,
    output: ViewModel,
    operands: Seq<Seq<ViewModel>>,
) -> RunModel {
    operator_run(
        WorkProvenance {
            operation: operation.source,
            value: Some(operation.results@[0]),
            reason: WorkReason::OperatorKernel,
        },
        kernel,
        operands,
        output,
        requirements,
    )
}

/// What an output reads, as the shards stood when it was looked up.
pub open spec fn reads(
    before: StateModel,
    operation: MidOperation,
    mapping: PointwiseInputMapping,
    output: ShardModel,
    views: Seq<ViewModel>,
) -> bool {
    pointwise_sources_from(
        before,
        operation.inputs@,
        mapping,
        output.tile,
        output.extents,
        0,
        Seq::empty(),
    ) == Ok::<Seq<ViewModel>, crate::low::LowLoweringError>(views)
}

/// A run of an output is prepared with the given operands.
pub open spec fn prepares_with(
    shards: Seq<ShardModel>,
    values: Seq<Seq<LowShardId>>,
    operation: MidOperation,
    kernel: KernelModel,
    mapping: PointwiseInputMapping,
    requirements: OperatorRequirementsModel,
    transfers: TransfersModel,
    runs: Seq<(u16, RunModel)>,
    output: LowShardId,
    before: StateModel,
    views: Seq<ViewModel>,
    operands: Seq<Seq<ViewModel>>,
    i: int,
) -> bool {
    let to = shards[output.0 as int];
    let whole = ViewModel { shard: output, extents: to.extents };
    &&& output.0 < shards.len()
    &&& begins(shards, before.shards)
    &&& before.canonical == values
    &&& reads(before, operation, mapping, to, views)
    &&& operands.len() == views.len()
    &&& are_received(shards, transfers, to.tile, views, operands)
    &&& 0 <= i < runs.len()
    &&& runs[i] == (to.tile, pointwise_run(operation, kernel, requirements, whole, operands))
}

/// A run of an output is prepared.
pub open spec fn prepares(
    shards: Seq<ShardModel>,
    values: Seq<Seq<LowShardId>>,
    operation: MidOperation,
    kernel: KernelModel,
    mapping: PointwiseInputMapping,
    requirements: OperatorRequirementsModel,
    transfers: TransfersModel,
    runs: Seq<(u16, RunModel)>,
    output: LowShardId,
) -> bool {
    exists|
        before: StateModel,
        views: Seq<ViewModel>,
        operands: Seq<Seq<ViewModel>>,
        i: int,
    | #[trigger]
        prepares_with(
            shards,
            values,
            operation,
            kernel,
            mapping,
            requirements,
            transfers,
            runs,
            output,
            before,
            views,
            operands,
            i,
        )
}

proof fn lemma_still_prepares(
    shards: Seq<ShardModel>,
    more: Seq<ShardModel>,
    values: Seq<Seq<LowShardId>>,
    operation: MidOperation,
    kernel: KernelModel,
    mapping: PointwiseInputMapping,
    requirements: OperatorRequirementsModel,
    before: TransfersModel,
    after: TransfersModel,
    runs: Seq<(u16, RunModel)>,
    all: Seq<(u16, RunModel)>,
    output: LowShardId,
)
    requires
        begins(more, shards),
        still_sends(before, after),
        begins(all, runs),
        prepares(shards, values, operation, kernel, mapping, requirements, before, runs, output),
    ensures
        prepares(more, values, operation, kernel, mapping, requirements, after, all, output),
{
    let (state, views, operands, i) = choose|
        state: StateModel,
        views: Seq<ViewModel>,
        operands: Seq<Seq<ViewModel>>,
        i: int,
    | #[trigger]
        prepares_with(
            shards,
            values,
            operation,
            kernel,
            mapping,
            requirements,
            before,
            runs,
            output,
            state,
            views,
            operands,
            i,
        );
    let to = shards[output.0 as int];
    assert(more[output.0 as int] == to);
    lemma_begins_on(state.shards, shards, more);
    lemma_all_still_received(shards, more, before, after, to.tile, views, operands);
    assert(all[i] == runs[i]);
    assert(prepares_with(
        more,
        values,
        operation,
        kernel,
        mapping,
        requirements,
        after,
        all,
        output,
        state,
        views,
        operands,
        i,
    ));
}

proof fn lemma_pointwise_from(
    s: StateModel,
    operation: MidOperation,
    kernel: KernelModel,
    mapping: PointwiseInputMapping,
    requirements: OperatorRequirementsModel,
    outputs: Seq<LowShardId>,
    k: int,
    transfers: TransfersModel,
    runs: Seq<(u16, RunModel)>,
)
    requires
        0 <= k,
        sources_agree(transfers),
    ensures
        match pointwise_from(
            s,
            operation,
            kernel,
            mapping,
            requirements,
            outputs,
            k,
            transfers,
            runs,
        ) {
            Err(_) => true,
            Ok((t, (more, all))) => {
                &&& only_adds_shards(s, t)
                &&& sources_agree(more)
                &&& still_sends(transfers, more)
                &&& begins(all, runs)
                &&& forall|o: int|
                    k <= o < outputs.len() && (#[trigger] outputs[o]).0 < s.shards.len()
                        && !is_empty(s.shards[outputs[o].0 as int].extents) ==> prepares(
                        t.shards,
                        t.canonical,
                        operation,
                        kernel,
                        mapping,
                        requirements,
                        more,
                        all,
                        outputs[o],
                    )
            },
        },
    decreases outputs.len() - k,
{
    if k < outputs.len() {
        if let Ok(to) = shard_of(s.shards, outputs[k]) {
            if is_empty(to.extents) {
                lemma_pointwise_from(
                    s,
                    operation,
                    kernel,
                    mapping,
                    requirements,
                    outputs,
                    k + 1,
                    transfers,
                    runs,
                );
            } else if let Ok(views) = pointwise_sources_from(
                s,
                operation.inputs@,
                mapping,
                to.tile,
                to.extents,
                0,
                Seq::empty(),
            ) {
                lemma_receive_from(s, to.tile, views, 0, transfers, Seq::empty());
                if let Ok((next, (more, operands))) = receive_from(
                    s,
                    to.tile,
                    views,
                    0,
                    transfers,
                    Seq::empty(),
                ) {
                    let whole = ViewModel { shard: outputs[k], extents: to.extents };
                    let run = pointwise_run(operation, kernel, requirements, whole, operands);
                    let some = runs.push((to.tile, run));
                    let i = runs.len() as int;
                    assert(next.shards[outputs[k].0 as int] == to);
                    assert(prepares_with(
                        next.shards,
                        next.canonical,
                        operation,
                        kernel,
                        mapping,
                        requirements,
                        more,
                        some,
                        outputs[k],
                        s,
                        views,
                        operands,
                        i,
                    ));
                    lemma_pointwise_from(
                        next,
                        operation,
                        kernel,
                        mapping,
                        requirements,
                        outputs,
                        k + 1,
                        more,
                        some,
                    );
                    if let Ok((t, (most, all))) = pointwise_from(
                        s,
                        operation,
                        kernel,
                        mapping,
                        requirements,
                        outputs,
                        k,
                        transfers,
                        runs,
                    ) {
                        lemma_begins_on(s.shards, next.shards, t.shards);
                        lemma_begins_on(runs, some, all);
                        assert forall|a: ViewModel, b: ViewModel| sends(
                            transfers,
                            a,
                            b,
                        ) implies #[trigger] sends(most, a, b) by {
                            assert(sends(more, a, b));
                        }
                        lemma_still_prepares(
                            next.shards,
                            t.shards,
                            next.canonical,
                            operation,
                            kernel,
                            mapping,
                            requirements,
                            more,
                            most,
                            some,
                            all,
                            outputs[k],
                        );
                        assert forall|o: int|
                            k <= o < outputs.len() && (#[trigger] outputs[o]).0
                                < s.shards.len() && !is_empty(
                                s.shards[outputs[o].0 as int].extents,
                            ) implies prepares(
                            t.shards,
                            t.canonical,
                            operation,
                            kernel,
                            mapping,
                            requirements,
                            most,
                            all,
                            outputs[o],
                        ) by {
                            assert(next.shards[outputs[o].0 as int]
                                == s.shards[outputs[o].0 as int]);
                        }
                    }
                }
            }
        }
    }
}

/// An operand is a view in place, or an exchange brings the view there.
pub open spec fn operand_holds(
    s: StateModel,
    tile: u16,
    view: ViewModel,
    operand: Seq<ViewModel>,
) -> bool {
    &&& view.shard.0 < s.shards.len()
    &&& operand.len() == 1
    &&& operand[0].extents == view.extents
    &&& if s.shards[view.shard.0 as int].tile == tile {
        operand[0] == view
    } else {
        makes_exchange(s, view, operand[0])
    }
}

/// A schedule computes an output from the given operands.
pub open spec fn computes_output(
    s: StateModel,
    operation: MidOperation,
    kernel: KernelModel,
    mapping: PointwiseInputMapping,
    requirements: OperatorRequirementsModel,
    output: LowShardId,
    before: StateModel,
    views: Seq<ViewModel>,
    operands: Seq<Seq<ViewModel>>,
) -> bool {
    let to = s.shards[output.0 as int];
    let whole = ViewModel { shard: output, extents: to.extents };
    &&& begins(s.shards, before.shards)
    &&& before.canonical == s.canonical
    &&& reads(before, operation, mapping, to, views)
    &&& operands.len() == views.len()
    &&& forall|i: int|
        0 <= i < operands.len() ==> operand_holds(s, to.tile, views[i], #[trigger] operands[i])
    &&& makes(
        s,
        s.shards,
        pointwise_run(operation, kernel, requirements, whole, operands),
        to.tile,
    )
}

/// A pointwise operator computes every output shard that is not empty. What the
/// output reads of each input is on its tile, or an exchange brings it there.
pub proof fn lemma_pointwise_computes_every_output(
    s: StateModel,
    operation: MidOperation,
    kernel: KernelModel,
    mapping: PointwiseInputMapping,
    requirements: OperatorRequirementsModel,
    o: int,
)
    requires
        operation.results@.len() == 1,
        value_shards(s, operation.results@[0]) is Ok,
        0 <= o < value_shards(s, operation.results@[0])->Ok_0.len(),
        ({
            let output = value_shards(s, operation.results@[0])->Ok_0[o];
            output.0 < s.shards.len() && !is_empty(s.shards[output.0 as int].extents)
        }),
    ensures
        match lower_pointwise(s, operation, kernel, mapping, requirements) {
            Err(_) => true,
            Ok(t) => exists|
                before: StateModel,
                views: Seq<ViewModel>,
                operands: Seq<Seq<ViewModel>>,
            | #[trigger]
                computes_output(
                    t,
                    operation,
                    kernel,
                    mapping,
                    requirements,
                    value_shards(s, operation.results@[0])->Ok_0[o],
                    before,
                    views,
                    operands,
                ),
        },
{
    let outputs = value_shards(s, operation.results@[0])->Ok_0;
    lemma_pointwise_from(
        s,
        operation,
        kernel,
        mapping,
        requirements,
        outputs,
        0,
        Seq::empty(),
        Seq::empty(),
    );
    if let Ok(t) = lower_pointwise(s, operation, kernel, mapping, requirements) {
        let (next, (transfers, runs)) = pointwise_from(
            s,
            operation,
            kernel,
            mapping,
            requirements,
            outputs,
            0,
            Seq::empty(),
            Seq::empty(),
        )->Ok_0;
        let provenance = WorkProvenance {
            operation: operation.source,
            value: None,
            reason: WorkReason::OperatorInputs,
        };
        let a = append_ordered_phase(next, transfers, provenance, ExchangeOrder::Semantic)->Ok_0;
        lemma_append_phase(next, transfers, provenance, ExchangeOrder::Semantic);
        lemma_append_runs(a, runs, 0);
        lemma_lower_pointwise(s, operation, kernel, mapping, requirements);
        lemma_follows_keeps_values(s, t);
        lemma_holds_on(next, a, t);
        assert(prepares(
            next.shards,
            next.canonical,
            operation,
            kernel,
            mapping,
            requirements,
            transfers,
            runs,
            outputs[o],
        ));
        let (before, views, operands, i) = choose|
            before: StateModel,
            views: Seq<ViewModel>,
            operands: Seq<Seq<ViewModel>>,
            i: int,
        | #[trigger]
            prepares_with(
                next.shards,
                next.canonical,
                operation,
                kernel,
                mapping,
                requirements,
                transfers,
                runs,
                outputs[o],
                before,
                views,
                operands,
                i,
            );
        assert(makes(t, a.shards, runs[i].1, runs[i].0));
        assert forall|k: int| 0 <= k < operands.len() implies operand_holds(
            t,
            t.shards[outputs[o].0 as int].tile,
            views[k],
            #[trigger] operands[k],
        ) by {
            assert(is_received(
                next.shards,
                transfers,
                next.shards[outputs[o].0 as int].tile,
                views[k],
                operands[k],
            ));
            if sends(transfers, views[k], operands[k][0]) {
                assert(makes_exchange(a, views[k], operands[k][0]));
                lemma_still_exchanges(a, t, views[k], operands[k][0]);
            }
        }
        assert(computes_output(
            t,
            operation,
            kernel,
            mapping,
            requirements,
            outputs[o],
            before,
            views,
            operands,
        ));
    }
}

// ---------------------------------------------------------------- inputs

/// A view serves an output of a pointwise operator: it is of a shard of the
/// value and holds all that the elements of the output read of it. Without
/// broadcasting the shard is on the output's tile and has its rectangle.
pub open spec fn serves_output(
    s: StateModel,
    value: MidValueId,
    mapping: PointwiseInputMapping,
    output: ShardModel,
    view: ViewModel,
) -> bool {
    let from = s.shards[view.shard.0 as int];
    &&& value.0 < s.canonical.len()
    &&& s.canonical[value.0 as int].contains(view.shard)
    &&& view.shard.0 < s.shards.len()
    &&& match mapping {
        PointwiseInputMapping::TileLocal => from.tile == output.tile && from.extents
            == output.extents && view.extents == output.extents,
        PointwiseInputMapping::BroadcastToOutput => forall|element: Seq<int>| #[trigger]
            covers(output.extents, element) ==> covers(
                view.extents,
                read_element(from, element),
            ) && covers(from.extents, read_element(from, element)),
    }
}

proof fn lemma_source_serves(
    s: StateModel,
    t: StateModel,
    value: MidValueId,
    mapping: PointwiseInputMapping,
    output: ShardModel,
    k: int,
)
    requires
        begins(t.shards, s.shards),
        t.canonical == s.canonical,
        value.0 < s.canonical.len(),
        0 <= k,
    ensures
        match pointwise_source_from(
            s.shards,
            s.canonical[value.0 as int],
            mapping,
            output.tile,
            output.extents,
            k,
        ) {
            Ok(view) => serves_output(t, value, mapping, output, view),
            Err(_) => true,
        },
    decreases s.canonical[value.0 as int].len() - k,
{
    let ids = s.canonical[value.0 as int];
    if k < ids.len() {
        lemma_source_serves(s, t, value, mapping, output, k + 1);
        if ids[k].0 < s.shards.len() {
            assert(t.shards[ids[k].0 as int] == s.shards[ids[k].0 as int]);
            assert(ids.contains(ids[k]));
            if let Some(view) = broadcast_view_for_extents(s.shards, ids[k], output.extents) {
                assert forall|element: Seq<int>| #[trigger]
                    covers(output.extents, element) implies covers(
                    view.extents,
                    read_element(s.shards[ids[k].0 as int], element),
                ) && covers(
                    s.shards[ids[k].0 as int].extents,
                    read_element(s.shards[ids[k].0 as int], element),
                ) by {
                    lemma_broadcasts_hold_what_is_read(
                        s.shards,
                        ids[k],
                        output.extents,
                        element,
                    );
                }
            }
        }
    }
}

proof fn lemma_sources_serve(
    s: StateModel,
    t: StateModel,
    inputs: Seq<MidValueId>,
    mapping: PointwiseInputMapping,
    output: ShardModel,
    k: int,
    done: Seq<ViewModel>,
)
    requires
        begins(t.shards, s.shards),
        t.canonical == s.canonical,
        0 <= k <= inputs.len(),
        done.len() == k,
        forall|i: int|
            0 <= i < k ==> serves_output(t, inputs[i], mapping, output, #[trigger] done[i]),
    ensures
        match pointwise_sources_from(
            s,
            inputs,
            mapping,
            output.tile,
            output.extents,
            k,
            done,
        ) {
            Ok(views) => views.len() == inputs.len() && forall|i: int|
                0 <= i < views.len() ==> serves_output(
                    t,
                    inputs[i],
                    mapping,
                    output,
                    #[trigger] views[i],
                ),
            Err(_) => true,
        },
    decreases inputs.len() - k,
{
    if k < inputs.len() {
        if let Ok(ids) = value_shards(s, inputs[k]) {
            lemma_source_serves(s, t, inputs[k], mapping, output, 0);
            if let Ok(view) = pointwise_source_from(
                s.shards,
                ids,
                mapping,
                output.tile,
                output.extents,
                0,
            ) {
                lemma_sources_serve(
                    s,
                    t,
                    inputs,
                    mapping,
                    output,
                    k + 1,
                    done.push(view),
                );
            }
        }
    }
}

/// A run computes a shard of a pointwise result: its output is all of the shard,
/// and its operands are as many as the inputs, each one view that serves the
/// shard or that an exchange fills with one.
pub open spec fn computes_from_inputs(
    t: StateModel,
    operation: MidOperation,
    kernel: KernelModel,
    mapping: PointwiseInputMapping,
    output: LowShardId,
    run: RunModel,
    views: Seq<ViewModel>,
) -> bool {
    let to = t.shards[output.0 as int];
    &&& run.metadata.kernel == kernel
    &&& run.output == (ViewModel { shard: output, extents: to.extents })
    &&& run.inputs.len() == operation.inputs@.len()
    &&& views.len() == operation.inputs@.len()
    &&& forall|i: int|
        0 <= i < views.len() ==> serves_output(
            t,
            operation.inputs@[i],
            mapping,
            to,
            #[trigger] views[i],
        ) && operand_holds(t, to.tile, views[i], run.inputs[i])
    &&& makes(t, t.shards, run, to.tile)
}

/// A pointwise operator computes every shard of its result that is not empty,
/// on the shard's tile, from its inputs in their order.
pub proof fn lemma_pointwise_computes_with_its_inputs(
    s: StateModel,
    operation: MidOperation,
    kernel: KernelModel,
    mapping: PointwiseInputMapping,
    requirements: OperatorRequirementsModel,
    o: int,
)
    requires
        operation.results@.len() == 1,
        operation.results@[0].0 < s.canonical.len(),
        0 <= o < s.canonical[operation.results@[0].0 as int].len(),
        ({
            let output = s.canonical[operation.results@[0].0 as int][o];
            output.0 < s.shards.len() && !is_empty(s.shards[output.0 as int].extents)
        }),
    ensures
        match lower_pointwise(s, operation, kernel, mapping, requirements) {
            Err(_) => true,
            Ok(t) => exists|run: RunModel, views: Seq<ViewModel>| #[trigger]
                computes_from_inputs(
                    t,
                    operation,
                    kernel,
                    mapping,
                    s.canonical[operation.results@[0].0 as int][o],
                    run,
                    views,
                ),
        },
{
    lemma_pointwise_computes_every_output(s, operation, kernel, mapping, requirements, o);
    if let Ok(t) = lower_pointwise(s, operation, kernel, mapping, requirements) {
        let output = value_shards(s, operation.results@[0])->Ok_0[o];
        let (before, views, operands) = choose|
            before: StateModel,
            views: Seq<ViewModel>,
            operands: Seq<Seq<ViewModel>>,
        | #[trigger]
            computes_output(
                t,
                operation,
                kernel,
                mapping,
                requirements,
                output,
                before,
                views,
                operands,
            );
        let to = t.shards[output.0 as int];
        lemma_sources_serve(before, t, operation.inputs@, mapping, to, 0, Seq::empty());
        let whole = ViewModel { shard: output, extents: to.extents };
        let run = pointwise_run(operation, kernel, requirements, whole, operands);
        assert forall|i: int| 0 <= i < views.len() implies serves_output(
            t,
            operation.inputs@[i],
            mapping,
            to,
            #[trigger] views[i],
        ) && operand_holds(t, to.tile, views[i], run.inputs[i]) by {
            assert(operand_holds(t, to.tile, views[i], operands[i]));
        }
        assert(computes_from_inputs(t, operation, kernel, mapping, output, run, views));
    }
}

} // verus!
