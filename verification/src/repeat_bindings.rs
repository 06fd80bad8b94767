//! What the runs of a repeat are bound to: on every tile, the shards of the
//! values that the body takes, in the order of the iterations.

use crate::lookup::{corresponding_shard, find_local_shard, first_on, resides, same_rectangle_from};
use crate::low::{
    IteratedModel, LowShardId, RepeatCarried, RepeatInvariant, RepeatModel, ShardDefinition,
    ShardModel, WorkListModel,
};
use crate::mid::{MidOperation, MidRepeat, MidValueId};
use crate::region::{lower_operations_from, lower_repeat, no_work};
use crate::repeats::{
    append_tile_repeat, append_tile_repeats_from, bind_carried, bind_iterated, blocks_from,
    carried_from, invariants_from, iterated_from,
};
use crate::schedule::{is_sound, keeps};
use crate::schedule_regions::{
    closing_repeat, lemma_append_tile_repeat, lemma_append_tile_repeats_from, lemma_repeat_start,
};
use crate::state::StateModel;
use crate::target::Target;
use crate::tensor::ShardExtent;
use vstd::prelude::*;

verus! {

// ---------------------------------------------------------------- shards of values

/// The shard is one of those that hold the value.
pub open spec fn is_shard_of(s: StateModel, value: MidValueId, id: LowShardId) -> bool {
    &&& value.0 < s.canonical.len()
    &&& s.canonical[value.0 as int].contains(id)
    &&& id.0 < s.shards.len()
}

/// All shards that hold values exist.
pub open spec fn values_known(s: StateModel) -> bool {
    forall|v: int, k: int|
        0 <= v < s.canonical.len() && 0 <= k < s.canonical[v].len() ==> (
        #[trigger] s.canonical[v][k]).0 < s.shards.len()
}

/// The shard holds the part of a value that another shard holds of its own: the
/// same rectangle, and on the same tile if the value has the rectangle there.
pub open spec fn corresponds(
    s: StateModel,
    value: MidValueId,
    to: LowShardId,
    id: LowShardId,
) -> bool {
    &&& to.0 < s.shards.len()
    &&& is_shard_of(s, value, id)
    &&& s.shards[id.0 as int].extents == s.shards[to.0 as int].extents
    &&& s.shards[id.0 as int].tile == s.shards[to.0 as int].tile || forall|other: LowShardId|
        is_shard_of(s, value, other) && s.shards[other.0 as int].extents
            == s.shards[to.0 as int].extents ==> (#[trigger] s.shards[other.0 as int]).tile
            != s.shards[to.0 as int].tile
}

/// The shard holds the value's part on the tile.
pub open spec fn is_on(s: StateModel, value: MidValueId, tile: u16, id: LowShardId) -> bool {
    is_shard_of(s, value, id) && s.shards[id.0 as int].tile == tile
}

/// The value has nothing on the tile.
pub open spec fn is_absent(s: StateModel, value: MidValueId, tile: u16) -> bool {
    forall|id: LowShardId| #[trigger]
        is_shard_of(s, value, id) ==> s.shards[id.0 as int].tile != tile
}

/// The second schedule has the shards of the first in their places, for the same
/// values.
spec fn same_places(s: StateModel, t: StateModel) -> bool {
    &&& t.canonical == s.canonical
    &&& s.shards.len() <= t.shards.len()
    &&& forall|i: int|
        0 <= i < s.shards.len() ==> (#[trigger] t.shards[i]).tile == s.shards[i].tile
            && t.shards[i].extents == s.shards[i].extents
}

proof fn lemma_kept_places(s: StateModel, t: StateModel)
    requires
        keeps(s, t),
    ensures
        same_places(s, t),
        values_known(s) ==> values_known(t),
{
    assert forall|i: int| 0 <= i < s.shards.len() implies (#[trigger] t.shards[i]).tile
        == s.shards[i].tile && t.shards[i].extents == s.shards[i].extents by {
        assert(crate::schedule::same_shard(s.shards[i], t.shards[i]));
    }
    if values_known(s) {
        assert forall|v: int, k: int|
            0 <= v < t.canonical.len() && 0 <= k < t.canonical[v].len() implies (
        #[trigger] t.canonical[v][k]).0 < t.shards.len() by {
            assert(s.canonical[v][k].0 < s.shards.len());
        }
    }
}

proof fn lemma_still_shard(s: StateModel, t: StateModel, value: MidValueId, id: LowShardId)
    requires
        same_places(s, t),
        values_known(s),
    ensures
        is_shard_of(s, value, id) == is_shard_of(t, value, id),
        is_shard_of(s, value, id) ==> t.shards[id.0 as int].tile == s.shards[id.0 as int].tile
            && t.shards[id.0 as int].extents == s.shards[id.0 as int].extents,
{
    if value.0 < s.canonical.len() && s.canonical[value.0 as int].contains(id) {
        let k = choose|k: int|
            0 <= k < s.canonical[value.0 as int].len() && s.canonical[value.0 as int][k] == id;
        assert(s.canonical[value.0 as int][k].0 < s.shards.len());
    }
}

proof fn lemma_still_corresponds(
    s: StateModel,
    t: StateModel,
    value: MidValueId,
    to: LowShardId,
    id: LowShardId,
)
    requires
        same_places(s, t),
        values_known(s),
        corresponds(s, value, to, id),
    ensures
        corresponds(t, value, to, id),
{
    lemma_still_shard(s, t, value, id);
    if s.shards[id.0 as int].tile != s.shards[to.0 as int].tile {
        assert forall|other: LowShardId|
            is_shard_of(t, value, other) && t.shards[other.0 as int].extents
                == t.shards[to.0 as int].extents implies (
        #[trigger] t.shards[other.0 as int]).tile != t.shards[to.0 as int].tile by {
            lemma_still_shard(s, t, value, other);
            assert(s.shards[other.0 as int].tile != s.shards[to.0 as int].tile);
        }
    }
}

proof fn lemma_still_absent(s: StateModel, t: StateModel, value: MidValueId, tile: u16)
    requires
        same_places(s, t),
        values_known(s),
        is_absent(s, value, tile),
    ensures
        is_absent(t, value, tile),
{
    assert forall|id: LowShardId| #[trigger]
        is_shard_of(t, value, id) implies t.shards[id.0 as int].tile != tile by {
        lemma_still_shard(s, t, value, id);
    }
}

// ---------------------------------------------------------------- finding

proof fn lemma_first_on(shards: Seq<ShardModel>, ids: Seq<LowShardId>, tile: u16, i: int)
    requires
        0 <= i,
    ensures
        match first_on(shards, ids, tile, i) {
            Some(id) => ids.contains(id) && resides(shards, id, tile),
            None => forall|k: int|
                i <= k < ids.len() ==> !resides(shards, #[trigger] ids[k], tile),
        },
    decreases ids.len() - i,
{
    if i < ids.len() {
        lemma_first_on(shards, ids, tile, i + 1);
        if resides(shards, ids[i], tile) {
            assert(ids.contains(ids[i]));
        }
    }
}

proof fn lemma_same_rectangle(
    shards: Seq<ShardModel>,
    ids: Seq<LowShardId>,
    extents: Seq<ShardExtent>,
    i: int,
    done: Seq<LowShardId>,
    id: LowShardId,
)
    requires
        0 <= i,
    ensures
        same_rectangle_from(shards, ids, extents, i, done).contains(id) <==> done.contains(id)
            || exists|k: int|
            i <= k < ids.len() && #[trigger] ids[k] == id && id.0 < shards.len()
                && shards[id.0 as int].extents == extents,
    decreases ids.len() - i,
{
    if i < ids.len() {
        let own = ids[i].0 < shards.len() && shards[ids[i].0 as int].extents == extents;
        let more = if own {
            done.push(ids[i])
        } else {
            done
        };
        lemma_same_rectangle(shards, ids, extents, i + 1, more, id);
        if own {
            assert(more.contains(id) <==> done.contains(id) || ids[i] == id) by {
                if done.contains(id) {
                    let k = choose|k: int| 0 <= k < done.len() && done[k] == id;
                    assert(more[k] == id);
                }
                assert(more[done.len() as int] == ids[i]);
                if more.contains(id) {
                    let k = choose|k: int| 0 <= k < more.len() && more[k] == id;
                    if k < done.len() {
                        assert(done[k] == id);
                    }
                }
            }
        }
    }
}

/// Looking for the part of a value that corresponds to a shard finds it.
pub proof fn lemma_corresponding_parts_are_found(
    s: StateModel,
    value: MidValueId,
    to: LowShardId,
)
    ensures
        match corresponding_shard(s, value, to) {
            Ok(id) => corresponds(s, value, to, id),
            Err(_) => to.0 >= s.shards.len() || forall|id: LowShardId|
                is_shard_of(s, value, id) ==> (#[trigger] s.shards[id.0 as int]).extents
                    != s.shards[to.0 as int].extents,
        },
{
    if to.0 < s.shards.len() {
        let shard = s.shards[to.0 as int];
        if value.0 < s.canonical.len() {
            let ids = s.canonical[value.0 as int];
            let same = same_rectangle_from(s.shards, ids, shard.extents, 0, Seq::empty());
            lemma_first_on(s.shards, same, shard.tile, 0);
            assert forall|id: LowShardId| is_shard_of(s, value, id) && s.shards[id.0 as int].extents
                == shard.extents implies #[trigger] same.contains(id) by {
                lemma_same_rectangle(s.shards, ids, shard.extents, 0, Seq::empty(), id);
                let k = choose|k: int| 0 <= k < ids.len() && ids[k] == id;
                assert(ids[k] == id);
            }
            match corresponding_shard(s, value, to) {
                Ok(id) => {
                    assert(same.contains(id)) by {
                        if first_on(s.shards, same, shard.tile, 0) is None {
                            assert(same[0] == id);
                        }
                    }
                    lemma_same_rectangle(s.shards, ids, shard.extents, 0, Seq::empty(), id);
                    assert(ids.contains(id));
                    if s.shards[id.0 as int].tile != shard.tile {
                        assert forall|other: LowShardId|
                            is_shard_of(s, value, other) && s.shards[other.0 as int].extents
                                == shard.extents implies (
                        #[trigger] s.shards[other.0 as int]).tile != shard.tile by {
                            assert(same.contains(other));
                            let k = choose|k: int| 0 <= k < same.len() && same[k] == other;
                            assert(!resides(s.shards, same[k], shard.tile));
                        }
                    }
                },
                Err(_) => {
                    assert forall|id: LowShardId| is_shard_of(s, value, id) implies (
                    #[trigger] s.shards[id.0 as int]).extents != shard.extents by {
                        if s.shards[id.0 as int].extents == shard.extents {
                            assert(same.contains(id));
                        }
                    }
                },
            }
        }
    }
}

proof fn lemma_local_argument(s: StateModel, value: MidValueId, tile: u16)
    ensures
        match find_local_shard(s, value, tile) {
            Ok(Some(id)) => is_on(s, value, tile, id),
            Ok(None) => is_absent(s, value, tile),
            Err(_) => true,
        },
{
    if value.0 < s.canonical.len() {
        let ids = s.canonical[value.0 as int];
        lemma_first_on(s.shards, ids, tile, 0);
        if find_local_shard(s, value, tile) matches Ok(None) {
            assert forall|id: LowShardId| #[trigger]
                is_shard_of(s, value, id) implies s.shards[id.0 as int].tile != tile by {
                let k = choose|k: int| 0 <= k < ids.len() && ids[k] == id;
                assert(!resides(s.shards, ids[k], tile));
            }
        }
    }
}

// ---------------------------------------------------------------- bindings

/// A carried value on a tile: what it starts from, what the body reads, what the
/// body yields, and the result, all of one rectangle.
pub open spec fn binds_carried(
    s: StateModel,
    operation: MidOperation,
    repeat: MidRepeat,
    tile: u16,
    j: int,
    carried: RepeatCarried,
) -> bool {
    &&& is_on(s, repeat.body.arguments@[j], tile, carried.argument)
    &&& corresponds(s, operation.inputs@[j], carried.argument, carried.initial)
    &&& corresponds(s, repeat.body.yields@[j], carried.argument, carried.yielded)
    &&& corresponds(s, operation.results@[j], carried.argument, carried.result)
}

/// An invariant value on a tile: the input, and what the body reads.
pub open spec fn binds_invariant(
    s: StateModel,
    operation: MidOperation,
    repeat: MidRepeat,
    tile: u16,
    j: int,
    entry: RepeatInvariant,
) -> bool {
    let position = repeat.carried_inputs + j;
    &&& is_on(s, repeat.body.arguments@[position], tile, entry.argument)
    &&& corresponds(s, operation.inputs@[position], entry.argument, entry.input)
}

/// An iterated value on a tile: what the body reads, and one input for each
/// iteration, that of the first iteration first.
pub open spec fn binds_iterated(
    s: StateModel,
    repeat: MidRepeat,
    tile: u16,
    j: int,
    iterated: IteratedModel,
) -> bool {
    let position = repeat.carried_inputs + repeat.invariant_inputs + j;
    let values = repeat.iterated_inputs@[j]@;
    &&& is_on(s, repeat.body.arguments@[position], tile, iterated.argument)
    &&& iterated.inputs.len() == values.len()
    &&& forall|i: int|
        0 <= i < values.len() ==> corresponds(
            s,
            values[i],
            iterated.argument,
            #[trigger] iterated.inputs[i],
        )
}

/// The numbers are below `end` and go up.
pub open spec fn goes_up(order: Seq<int>, end: int) -> bool {
    &&& forall|k: int| 0 <= k < order.len() ==> 0 <= #[trigger] order[k] < end
    &&& forall|k: int, l: int|
        0 <= k < l < order.len() ==> #[trigger] order[k] < #[trigger] order[l]
}

/// The entries are those of the carried values before `end` that the tile has, in
/// order.
pub open spec fn lists_carried(
    s: StateModel,
    operation: MidOperation,
    repeat: MidRepeat,
    tile: u16,
    order: Seq<int>,
    entries: Seq<RepeatCarried>,
    end: int,
) -> bool {
    &&& goes_up(order, end)
    &&& order.len() == entries.len()
    &&& forall|k: int|
        0 <= k < entries.len() ==> binds_carried(
            s,
            operation,
            repeat,
            tile,
            order[k],
            #[trigger] entries[k],
        )
    &&& forall|j: int|
        0 <= j < end && !order.contains(j) ==> is_absent(
            s,
            #[trigger] repeat.body.arguments@[j],
            tile,
        )
}

/// The entries are those of the invariant values before `end` that the tile has,
/// in order.
pub open spec fn lists_invariants(
    s: StateModel,
    operation: MidOperation,
    repeat: MidRepeat,
    tile: u16,
    order: Seq<int>,
    entries: Seq<RepeatInvariant>,
    end: int,
) -> bool {
    &&& goes_up(order, end)
    &&& order.len() == entries.len()
    &&& forall|k: int|
        0 <= k < entries.len() ==> binds_invariant(
            s,
            operation,
            repeat,
            tile,
            order[k],
            #[trigger] entries[k],
        )
    &&& forall|j: int|
        0 <= j < end && !order.contains(j) ==> is_absent(
            s,
            #[trigger] repeat.body.arguments@[repeat.carried_inputs + j],
            tile,
        )
}

/// The entries are those of the iterated values before `end` that the tile has,
/// in order.
pub open spec fn lists_iterated(
    s: StateModel,
    repeat: MidRepeat,
    tile: u16,
    order: Seq<int>,
    entries: Seq<IteratedModel>,
    end: int,
) -> bool {
    &&& goes_up(order, end)
    &&& order.len() == entries.len()
    &&& forall|k: int|
        0 <= k < entries.len() ==> binds_iterated(
            s,
            repeat,
            tile,
            order[k],
            #[trigger] entries[k],
        )
    &&& forall|j: int|
        0 <= j < end && !order.contains(j) ==> is_absent(
            s,
            #[trigger] repeat.body.arguments@[repeat.carried_inputs + repeat.invariant_inputs + j],
            tile,
        )
}

/// The entries are those of all carried values that the tile has, in order.
pub open spec fn carried_listed(
    s: StateModel,
    operation: MidOperation,
    repeat: MidRepeat,
    tile: u16,
    entries: Seq<RepeatCarried>,
) -> bool {
    exists|order: Seq<int>| #[trigger]
        lists_carried(
            s,
            operation,
            repeat,
            tile,
            order,
            entries,
            repeat.carried_inputs as int,
        )
}

/// The entries are those of all invariant values that the tile has, in order.
pub open spec fn invariants_listed(
    s: StateModel,
    operation: MidOperation,
    repeat: MidRepeat,
    tile: u16,
    entries: Seq<RepeatInvariant>,
) -> bool {
    exists|order: Seq<int>| #[trigger]
        lists_invariants(
            s,
            operation,
            repeat,
            tile,
            order,
            entries,
            repeat.invariant_inputs as int,
        )
}

/// The entries are those of all iterated values that the tile has, in order.
pub open spec fn iterated_listed(
    s: StateModel,
    repeat: MidRepeat,
    tile: u16,
    entries: Seq<IteratedModel>,
) -> bool {
    exists|order: Seq<int>| #[trigger]
        lists_iterated(
            s,
            repeat,
            tile,
            order,
            entries,
            repeat.iterated_inputs@.len() as int,
        )
}

/// A run of a repeat on a tile is bound to all that the tile has of the values of
/// the repeat.
pub open spec fn binds_all(
    s: StateModel,
    operation: MidOperation,
    repeat: MidRepeat,
    tile: u16,
    run: RepeatModel,
) -> bool {
    &&& run.count == repeat.count
    &&& carried_listed(s, operation, repeat, tile, run.carried)
    &&& invariants_listed(s, operation, repeat, tile, run.invariants)
    &&& iterated_listed(s, repeat, tile, run.iterated)
}

proof fn lemma_order_pushed(order: Seq<int>, index: int)
    requires
        goes_up(order, index),
        0 <= index,
    ensures
        goes_up(order, index + 1),
        goes_up(order.push(index), index + 1),
        order.push(index).contains(index),
        forall|j: int| order.contains(j) ==> #[trigger] order.push(index).contains(j),
{
    let more = order.push(index);
    assert(more[order.len() as int] == index);
    assert forall|j: int| order.contains(j) implies #[trigger] more.contains(j) by {
        let k = choose|k: int| 0 <= k < order.len() && order[k] == j;
        assert(more[k] == j);
    }
}

// ---------------------------------------------------------------- iterated

proof fn lemma_blocks(
    s: StateModel,
    values: Seq<MidValueId>,
    argument: LowShardId,
    i: int,
    done: Seq<LowShardId>,
)
    requires
        0 <= i <= values.len(),
        done.len() == i,
        forall|k: int|
            0 <= k < i ==> corresponds(s, values[k], argument, #[trigger] done[k]),
    ensures
        match blocks_from(s, values, argument, i, done) {
            Ok(inputs) => inputs.len() == values.len() && forall|k: int|
                0 <= k < values.len() ==> corresponds(
                    s,
                    values[k],
                    argument,
                    #[trigger] inputs[k],
                ),
            Err(_) => true,
        },
    decreases values.len() - i,
{
    if i < values.len() {
        lemma_corresponding_parts_are_found(s, values[i], argument);
        if let Ok(id) = corresponding_shard(s, values[i], argument) {
            lemma_blocks(s, values, argument, i + 1, done.push(id));
        }
    }
}

proof fn lemma_iterated(
    s: StateModel,
    repeat: MidRepeat,
    tile: u16,
    index: int,
    done: Seq<IteratedModel>,
    order: Seq<int>,
)
    requires
        0 <= index <= repeat.iterated_inputs@.len(),
        lists_iterated(s, repeat, tile, order, done, index),
    ensures
        match iterated_from(s, repeat, tile, index, done) {
            Ok(entries) => iterated_listed(s, repeat, tile, entries),
            Err(_) => true,
        },
    decreases repeat.iterated_inputs@.len() - index,
{
    if index < repeat.iterated_inputs@.len() {
        let position = repeat.carried_inputs + repeat.invariant_inputs + index;
        let value = repeat.body.arguments@[position];
        lemma_order_pushed(order, index);
        lemma_local_argument(s, value, tile);
        match find_local_shard(s, value, tile) {
            Err(_) => {},
            Ok(None) => {
                assert(lists_iterated(s, repeat, tile, order, done, index + 1));
                lemma_iterated(s, repeat, tile, index + 1, done, order);
            },
            Ok(Some(argument)) => {
                lemma_blocks(s, repeat.iterated_inputs@[index]@, argument, 0, Seq::empty());
                if let Ok(iterated) = bind_iterated(s, repeat, index, argument) {
                    let more = done.push(iterated);
                    let next = order.push(index);
                    assert(binds_iterated(s, repeat, tile, index, iterated));
                    assert forall|k: int| 0 <= k < more.len() implies binds_iterated(
                        s,
                        repeat,
                        tile,
                        next[k],
                        #[trigger] more[k],
                    ) by {
                        if k < done.len() {
                            assert(more[k] == done[k]);
                        }
                    }
                    assert(lists_iterated(s, repeat, tile, next, more, index + 1));
                    lemma_iterated(s, repeat, tile, index + 1, more, next);
                }
            },
        }
    } else {
        assert(lists_iterated(
            s,
            repeat,
            tile,
            order,
            done,
            repeat.iterated_inputs@.len() as int,
        ));
    }
}

// ---------------------------------------------------------------- invariant

proof fn lemma_invariants(
    s: StateModel,
    operation: MidOperation,
    repeat: MidRepeat,
    tile: u16,
    index: int,
    done: Seq<RepeatInvariant>,
    order: Seq<int>,
)
    requires
        0 <= index <= repeat.invariant_inputs,
        lists_invariants(s, operation, repeat, tile, order, done, index),
    ensures
        match invariants_from(s, operation, repeat, tile, index, done) {
            Ok(entries) => invariants_listed(s, operation, repeat, tile, entries),
            Err(_) => true,
        },
    decreases repeat.invariant_inputs - index,
{
    if index < repeat.invariant_inputs {
        let position = repeat.carried_inputs + index;
        let value = repeat.body.arguments@[position];
        lemma_order_pushed(order, index);
        lemma_local_argument(s, value, tile);
        match find_local_shard(s, value, tile) {
            Err(_) => {},
            Ok(None) => {
                assert(lists_invariants(s, operation, repeat, tile, order, done, index + 1));
                lemma_invariants(s, operation, repeat, tile, index + 1, done, order);
            },
            Ok(Some(argument)) => {
                lemma_corresponding_parts_are_found(s, operation.inputs@[position], argument);
                if let Ok(input) = corresponding_shard(s, operation.inputs@[position], argument) {
                    let entry = RepeatInvariant { input, argument };
                    let more = done.push(entry);
                    let next = order.push(index);
                    assert(binds_invariant(s, operation, repeat, tile, index, entry));
                    assert forall|k: int| 0 <= k < more.len() implies binds_invariant(
                        s,
                        operation,
                        repeat,
                        tile,
                        next[k],
                        #[trigger] more[k],
                    ) by {
                        if k < done.len() {
                            assert(more[k] == done[k]);
                        }
                    }
                    assert(lists_invariants(
                        s,
                        operation,
                        repeat,
                        tile,
                        next,
                        more,
                        index + 1,
                    ));
                    lemma_invariants(s, operation, repeat, tile, index + 1, more, next);
                }
            },
        }
    } else {
        assert(lists_invariants(
            s,
            operation,
            repeat,
            tile,
            order,
            done,
            repeat.invariant_inputs as int,
        ));
    }
}

// ---------------------------------------------------------------- carried

proof fn lemma_carried_still_listed(
    s: StateModel,
    t: StateModel,
    operation: MidOperation,
    repeat: MidRepeat,
    tile: u16,
    order: Seq<int>,
    entries: Seq<RepeatCarried>,
    end: int,
)
    requires
        same_places(s, t),
        values_known(s),
        lists_carried(s, operation, repeat, tile, order, entries, end),
    ensures
        lists_carried(t, operation, repeat, tile, order, entries, end),
{
    assert forall|k: int| 0 <= k < entries.len() implies binds_carried(
        t,
        operation,
        repeat,
        tile,
        order[k],
        #[trigger] entries[k],
    ) by {
        let (j, c) = (order[k], entries[k]);
        assert(binds_carried(s, operation, repeat, tile, j, c));
        lemma_still_shard(s, t, repeat.body.arguments@[j], c.argument);
        lemma_still_corresponds(s, t, operation.inputs@[j], c.argument, c.initial);
        lemma_still_corresponds(s, t, repeat.body.yields@[j], c.argument, c.yielded);
        lemma_still_corresponds(s, t, operation.results@[j], c.argument, c.result);
    }
    assert forall|j: int| 0 <= j < end && !order.contains(j) implies is_absent(
        t,
        #[trigger] repeat.body.arguments@[j],
        tile,
    ) by {
        lemma_still_absent(s, t, repeat.body.arguments@[j], tile);
    }
}

/// Binding a carried value lets its parts share storage: argument and result are
/// the initial value, and the yielded value is written over the argument. No
/// other shard is touched.
pub proof fn lemma_carried_values_share_storage(
    s: StateModel,
    operation: MidOperation,
    repeat: MidRepeat,
    index: int,
    argument: LowShardId,
)
    ensures
        match bind_carried(s, operation, repeat, index, argument) {
            Ok((t, c)) => {
                &&& c.argument == argument
                &&& corresponds(s, operation.inputs@[index], argument, c.initial)
                &&& corresponds(s, repeat.body.yields@[index], argument, c.yielded)
                &&& corresponds(s, operation.results@[index], argument, c.result)
                &&& t == (StateModel { shards: t.shards, ..s })
                &&& t.shards.len() == s.shards.len()
                &&& t.shards[c.result.0 as int].definition == ShardDefinition::Alias(c.initial)
                &&& c.yielded != c.argument && c.yielded != c.result
                    ==> t.shards[c.yielded.0 as int].definition
                    == ShardDefinition::WritableAlias(c.argument)
                &&& c.argument != c.result ==> t.shards[c.argument.0 as int].definition
                    == ShardDefinition::Alias(c.initial)
                &&& forall|i: int|
                    0 <= i < s.shards.len() ==> {
                        &&& (#[trigger] t.shards[i]) == (ShardModel {
                            definition: t.shards[i].definition,
                            ..s.shards[i]
                        })
                        &&& i != c.argument.0 && i != c.yielded.0 && i != c.result.0
                            ==> t.shards[i] == s.shards[i]
                    }
            },
            Err(_) => true,
        },
{
    lemma_corresponding_parts_are_found(s, operation.inputs@[index], argument);
    lemma_corresponding_parts_are_found(s, repeat.body.yields@[index], argument);
    lemma_corresponding_parts_are_found(s, operation.results@[index], argument);
}

proof fn lemma_carried(
    s: StateModel,
    operation: MidOperation,
    repeat: MidRepeat,
    tile: u16,
    index: int,
    done: Seq<RepeatCarried>,
    order: Seq<int>,
)
    requires
        values_known(s),
        0 <= index <= repeat.carried_inputs,
        lists_carried(s, operation, repeat, tile, order, done, index),
    ensures
        match carried_from(s, operation, repeat, tile, index, done) {
            Ok((t, entries)) => {
                &&& same_places(s, t)
                &&& values_known(t)
                &&& carried_listed(t, operation, repeat, tile, entries)
            },
            Err(_) => true,
        },
    decreases repeat.carried_inputs - index,
{
    if index < repeat.carried_inputs {
        let value = repeat.body.arguments@[index];
        lemma_order_pushed(order, index);
        lemma_local_argument(s, value, tile);
        match find_local_shard(s, value, tile) {
            Err(_) => {},
            Ok(None) => {
                assert(lists_carried(s, operation, repeat, tile, order, done, index + 1));
                lemma_carried(s, operation, repeat, tile, index + 1, done, order);
            },
            Ok(Some(argument)) => {
                lemma_carried_values_share_storage(s, operation, repeat, index, argument);
                if let Ok((next, entry)) = bind_carried(s, operation, repeat, index, argument) {
                    assert(same_places(s, next));
                    assert(values_known(next)) by {
                        assert forall|v: int, k: int|
                            0 <= v < next.canonical.len() && 0 <= k
                                < next.canonical[v].len() implies (
                        #[trigger] next.canonical[v][k]).0 < next.shards.len() by {
                            assert(s.canonical[v][k].0 < s.shards.len());
                        }
                    }
                    let more = done.push(entry);
                    let all = order.push(index);
                    assert(binds_carried(s, operation, repeat, tile, index, entry));
                    assert forall|k: int| 0 <= k < more.len() implies binds_carried(
                        s,
                        operation,
                        repeat,
                        tile,
                        all[k],
                        #[trigger] more[k],
                    ) by {
                        if k < done.len() {
                            assert(more[k] == done[k]);
                        }
                    }
                    assert(lists_carried(s, operation, repeat, tile, all, more, index + 1));
                    lemma_carried_still_listed(
                        s,
                        next,
                        operation,
                        repeat,
                        tile,
                        all,
                        more,
                        index + 1,
                    );
                    lemma_carried(next, operation, repeat, tile, index + 1, more, all);
                    if let Ok((t, _)) = carried_from(
                        next,
                        operation,
                        repeat,
                        tile,
                        index + 1,
                        more,
                    ) {
                        assert forall|i: int| 0 <= i < s.shards.len() implies (
                        #[trigger] t.shards[i]).tile == s.shards[i].tile && t.shards[i].extents
                            == s.shards[i].extents by {
                            assert(next.shards[i].tile == s.shards[i].tile);
                        }
                    }
                }
            },
        }
    } else {
        assert(lists_carried(
            s,
            operation,
            repeat,
            tile,
            order,
            done,
            repeat.carried_inputs as int,
        ));
    }
}

// ---------------------------------------------------------------- tiles

proof fn lemma_still_binds(
    s: StateModel,
    t: StateModel,
    operation: MidOperation,
    repeat: MidRepeat,
    tile: u16,
    run: RepeatModel,
)
    requires
        same_places(s, t),
        values_known(s),
        binds_all(s, operation, repeat, tile, run),
    ensures
        binds_all(t, operation, repeat, tile, run),
{
    let a = choose|order: Seq<int>| #[trigger]
        lists_carried(
            s,
            operation,
            repeat,
            tile,
            order,
            run.carried,
            repeat.carried_inputs as int,
        );
    lemma_carried_still_listed(
        s,
        t,
        operation,
        repeat,
        tile,
        a,
        run.carried,
        repeat.carried_inputs as int,
    );
    let fixed = repeat.carried_inputs + repeat.invariant_inputs;
    let b = choose|order: Seq<int>| #[trigger]
        lists_invariants(
            s,
            operation,
            repeat,
            tile,
            order,
            run.invariants,
            repeat.invariant_inputs as int,
        );
    assert forall|k: int| 0 <= k < run.invariants.len() implies binds_invariant(
        t,
        operation,
        repeat,
        tile,
        b[k],
        #[trigger] run.invariants[k],
    ) by {
        let (j, c) = (b[k], run.invariants[k]);
        let position = repeat.carried_inputs + j;
        assert(binds_invariant(s, operation, repeat, tile, j, c));
        lemma_still_shard(s, t, repeat.body.arguments@[position], c.argument);
        lemma_still_corresponds(s, t, operation.inputs@[position], c.argument, c.input);
    }
    assert forall|j: int| 0 <= j < repeat.invariant_inputs && !b.contains(j) implies is_absent(
        t,
        #[trigger] repeat.body.arguments@[repeat.carried_inputs + j],
        tile,
    ) by {
        lemma_still_absent(s, t, repeat.body.arguments@[repeat.carried_inputs + j], tile);
    }
    assert(lists_invariants(
        t,
        operation,
        repeat,
        tile,
        b,
        run.invariants,
        repeat.invariant_inputs as int,
    ));
    let c = choose|order: Seq<int>| #[trigger]
        lists_iterated(
            s,
            repeat,
            tile,
            order,
            run.iterated,
            repeat.iterated_inputs@.len() as int,
        );
    assert forall|k: int| 0 <= k < run.iterated.len() implies binds_iterated(
        t,
        repeat,
        tile,
        c[k],
        #[trigger] run.iterated[k],
    ) by {
        let (j, e) = (c[k], run.iterated[k]);
        let values = repeat.iterated_inputs@[j]@;
        assert(binds_iterated(s, repeat, tile, j, e));
        lemma_still_shard(s, t, repeat.body.arguments@[fixed + j], e.argument);
        assert forall|i: int| 0 <= i < values.len() implies corresponds(
            t,
            values[i],
            e.argument,
            #[trigger] e.inputs[i],
        ) by {
            lemma_still_corresponds(s, t, values[i], e.argument, e.inputs[i]);
        }
    }
    assert forall|j: int| 0 <= j < repeat.iterated_inputs@.len() && !c.contains(
        j,
    ) implies is_absent(t, #[trigger] repeat.body.arguments@[fixed + j], tile) by {
        lemma_still_absent(s, t, repeat.body.arguments@[fixed + j], tile);
    }
    assert(lists_iterated(
        t,
        repeat,
        tile,
        c,
        run.iterated,
        repeat.iterated_inputs@.len() as int,
    ));
}

proof fn lemma_tile_repeat(
    s: StateModel,
    operation: MidOperation,
    repeat: MidRepeat,
    body: Seq<WorkListModel>,
    tile: u16,
)
    requires
        values_known(s),
    ensures
        match append_tile_repeat(s, operation, repeat, body, tile) {
            Ok(t) => binds_all(t, operation, repeat, tile, t.repeat_runs.last()),
            Err(_) => true,
        },
{
    if let Ok(t) = append_tile_repeat(s, operation, repeat, body, tile) {
        let none = Seq::<int>::empty();
        assert(lists_carried(s, operation, repeat, tile, none, Seq::empty(), 0));
        lemma_carried(s, operation, repeat, tile, 0, Seq::empty(), none);
        let (next, carried) = carried_from(
            s,
            operation,
            repeat,
            tile,
            0,
            Seq::empty(),
        )->Ok_0;
        assert(lists_invariants(next, operation, repeat, tile, none, Seq::empty(), 0));
        lemma_invariants(next, operation, repeat, tile, 0, Seq::empty(), none);
        assert(lists_iterated(next, repeat, tile, none, Seq::empty(), 0));
        lemma_iterated(next, repeat, tile, 0, Seq::empty(), none);
        let run = t.repeat_runs.last();
        assert(run.carried == carried);
        assert(invariants_from(next, operation, repeat, tile, 0, Seq::empty())->Ok_0
            == run.invariants);
        assert(iterated_from(next, repeat, tile, 0, Seq::empty())->Ok_0 == run.iterated);
        assert(binds_all(next, operation, repeat, tile, run));
        assert(same_places(next, t));
        lemma_still_binds(next, t, operation, repeat, tile, run);
    }
}

proof fn lemma_tile_repeats(
    s: StateModel,
    operation: MidOperation,
    repeat: MidRepeat,
    body: Seq<WorkListModel>,
    count: u16,
    tile: int,
)
    requires
        values_known(s),
        0 <= tile <= count,
    ensures
        match append_tile_repeats_from(s, operation, repeat, body, count, tile) {
            Ok(t) => {
                &&& values_known(t)
                &&& t.repeat_runs.len() == s.repeat_runs.len() + (count - tile)
                &&& forall|i: int|
                    tile <= i < count ==> binds_all(
                        t,
                        operation,
                        repeat,
                        i as u16,
                        #[trigger] t.repeat_runs[s.repeat_runs.len() + (i - tile)],
                    )
            },
            Err(_) => true,
        },
    decreases count - tile,
{
    if tile < count {
        lemma_append_tile_repeat(s, operation, repeat, body, tile as u16);
        lemma_tile_repeat(s, operation, repeat, body, tile as u16);
        if let Ok(next) = append_tile_repeat(s, operation, repeat, body, tile as u16) {
            lemma_kept_places(s, next);
            lemma_tile_repeats(next, operation, repeat, body, count, tile + 1);
            lemma_append_tile_repeats_from(next, operation, repeat, body, count, tile + 1);
            if let Ok(t) = append_tile_repeats_from(
                next,
                operation,
                repeat,
                body,
                count,
                tile + 1,
            ) {
                lemma_kept_places(next, t);
                let base = s.repeat_runs.len();
                assert(t.repeat_runs[base as int] == next.repeat_runs[base as int]);
                lemma_still_binds(
                    next,
                    t,
                    operation,
                    repeat,
                    tile as u16,
                    next.repeat_runs.last(),
                );
                assert forall|i: int| tile <= i < count implies binds_all(
                    t,
                    operation,
                    repeat,
                    i as u16,
                    #[trigger] t.repeat_runs[base + (i - tile)],
                ) by {
                    if i > tile {
                        assert(base + (i - tile) == next.repeat_runs.len() + (i - (tile + 1)));
                    }
                }
            }
        }
    }
}

/// The runs of a repeat are bound to the values of the repeat: on every tile, a
/// carried value to its initial value, to what the body reads and yields, and to
/// the result; an invariant value to its input; and an iterated value to one
/// input for each iteration, in the order of the iterations.
pub proof fn lemma_repeats_bind_their_values<M: Target>(
    target: &M,
    s: StateModel,
    operation: MidOperation,
    repeat: MidRepeat,
    tile: int,
)
    requires
        is_sound(s),
        values_known(s),
        0 <= tile < s.tiles.len(),
    ensures
        match lower_repeat(target, s, operation, repeat) {
            Ok(t) => {
                &&& binds_all(t, operation, repeat, tile as u16, closing_repeat(t, tile))
                &&& forall|k: int|
                    0 <= k < closing_repeat(t, tile).iterated.len() ==> (
                    #[trigger] closing_repeat(t, tile).iterated[k]).inputs.len() == repeat.count
            },
            Err(_) => true,
        },
{
    if let Ok(t) = lower_repeat(target, s, operation, repeat) {
        let start = StateModel { tiles: no_work(s.tile_count), ..s };
        lemma_repeat_start(target, s, repeat);
        let lowered = lower_operations_from(
            target,
            start,
            repeat.body.operations@,
            repeat.body.yields@,
            false,
            0,
            0,
        )->Ok_0;
        let back = StateModel { tiles: s.tiles, ..lowered };
        lemma_kept_places(s, back);
        lemma_tile_repeats(back, operation, repeat, lowered.tiles, lowered.tile_count, 0);
        lemma_append_tile_repeats_from(
            back,
            operation,
            repeat,
            lowered.tiles,
            lowered.tile_count,
            0,
        );
        let run = t.repeat_runs[back.repeat_runs.len() + (tile - 0)];
        assert(closing_repeat(t, tile) == run);
        let order = choose|order: Seq<int>| #[trigger]
            lists_iterated(
                t,
                repeat,
                tile as u16,
                order,
                run.iterated,
                repeat.iterated_inputs@.len() as int,
            );
        assert forall|k: int| 0 <= k < run.iterated.len() implies (
        #[trigger] run.iterated[k]).inputs.len() == repeat.count by {
            assert(binds_iterated(t, repeat, tile as u16, order[k], run.iterated[k]));
            assert(repeat.iterated_inputs@[order[k]]@.len() == repeat.count);
        }
    }
}

} // verus!
