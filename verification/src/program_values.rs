//! What the values of a lowered program are: the shards that a value's layout
//! divides it into, the same ones wherever the program names the value.

use crate::low::{InputModel, LowShardId, ShardModel, ValueModel};
use crate::mid::{MidGraph, MidInput, MidValue, MidValueId, PipelineConfig};
use crate::placement::{
    best_offset, initial_state, is_rotated, offset_from, place_rotated_from, place_shards_from,
    place_value, place_values_from, rotated, shard_bytes_from, value_shard, Placement,
};
use crate::program::{inputs_from, lowered, outputs_from, values_from, ProgramModel};
use crate::region::{lower_region, no_work};
use crate::repeat_bindings::values_known;
use crate::schedule::{follows, same_shard};
use crate::schedule_regions::{lemma_initial_state, lemma_lower_operations_from};
use crate::state::{push_shard, StateModel};
use crate::target::Target;
use crate::tensor::ShardExtent;
use vstd::prelude::*;

verus! {

/// No two values of a graph have the same id.
pub open spec fn ids_differ(graph: MidGraph) -> bool {
    forall|v: int, w: int|
        0 <= v < w < graph.values@.len() ==> (#[trigger] graph.values@[v]).id != (
        #[trigger] graph.values@[w]).id
}

/// The shards hold a value as its layout divides it: one shard for each part, in
/// the order of the parts, with the part's rectangle and the value's type.
pub open spec fn holds_value<M: Target>(
    target: &M,
    shards: Seq<ShardModel>,
    value: MidValue,
    ids: Seq<LowShardId>,
) -> bool {
    match target.spec_resolve(value.tensor_type@.format.layout, value.tensor_type@.shape) {
        Err(_) => false,
        Ok(resolved) => {
            &&& ids.len() == resolved.shards.len()
            &&& forall|k: int|
                0 <= k < ids.len() ==> {
                    &&& (#[trigger] ids[k]).0 < shards.len()
                    &&& shards[ids[k].0 as int].tensor_type == value.tensor_type@
                    &&& shards[ids[k].0 as int].extents == resolved.shards[k].1
                }
        },
    }
}

/// The shards are on the tiles of the layout's parts, or all of them as many
/// tiles further round.
pub open spec fn stands_on_tiles<M: Target>(
    target: &M,
    shards: Seq<ShardModel>,
    value: MidValue,
    ids: Seq<LowShardId>,
    tile_count: u16,
    moved: bool,
) -> bool {
    match target.spec_resolve(value.tensor_type@.format.layout, value.tensor_type@.shape) {
        Err(_) => false,
        Ok(resolved) => if moved {
            exists|offset: int|
                0 <= offset < tile_count && #[trigger] moved_by(
                    shards,
                    ids,
                    resolved.shards,
                    tile_count,
                    offset,
                )
        } else {
            forall|k: int|
                0 <= k < ids.len() ==> shards[(#[trigger] ids[k]).0 as int].tile
                    == resolved.shards[k].0
        },
    }
}

/// Every shard is on the tile of its part, `offset` tiles further round.
pub open spec fn moved_by(
    shards: Seq<ShardModel>,
    ids: Seq<LowShardId>,
    parts: Seq<(u16, Seq<ShardExtent>)>,
    tile_count: u16,
    offset: int,
) -> bool {
    forall|k: int|
        0 <= k < ids.len() ==> shards[(#[trigger] ids[k]).0 as int].tile as int == (parts[k].0
            + offset) % (tile_count as int)
}

/// The shards stand one after the other.
spec fn consecutive(ids: Seq<LowShardId>, first: int) -> bool {
    forall|k: int| 0 <= k < ids.len() ==> (#[trigger] ids[k]).0 == first + k
}

/// The shards from `first` on are those of the parts from the first part on.
spec fn parts_placed(
    shards: Seq<ShardModel>,
    value: MidValue,
    parts: Seq<(u16, Seq<ShardExtent>)>,
    ids: Seq<LowShardId>,
    first: int,
) -> bool {
    &&& consecutive(ids, first)
    &&& first + ids.len() <= shards.len()
    &&& ids.len() <= parts.len()
    &&& forall|k: int|
        0 <= k < ids.len() ==> (#[trigger] shards[first + k]).tensor_type == value.tensor_type@
            && shards[first + k].extents == parts[k].1
}

proof fn lemma_place_shards(
    s: StateModel,
    value: MidValue,
    parts: Seq<(u16, Seq<ShardExtent>)>,
    i: int,
    done: Seq<LowShardId>,
    first: int,
)
    requires
        0 <= i <= parts.len(),
        0 <= first,
        done.len() == i,
        first + i == s.shards.len(),
        parts_placed(s.shards, value, parts, done, first),
        forall|k: int|
            0 <= k < i ==> (#[trigger] s.shards[first + k]).tile == parts[k].0,
    ensures
        match place_shards_from(s, value, parts, i, done) {
            Ok((t, ids)) => {
                &&& t == (StateModel { shards: t.shards, ..s })
                &&& s.shards.is_prefix_of(t.shards)
                &&& ids.len() == parts.len()
                &&& t.shards.len() == first + parts.len()
                &&& parts_placed(t.shards, value, parts, ids, first)
                &&& forall|k: int|
                    0 <= k < parts.len() ==> (#[trigger] t.shards[first + k]).tile == parts[k].0
            },
            Err(_) => true,
        },
    decreases parts.len() - i,
{
    if i < parts.len() {
        let shard = value_shard(value, parts[i].0, parts[i].1);
        if let Ok((next, id)) = push_shard(s, shard) {
            let more = done.push(id);
            assert(next.shards[first + i].tensor_type == value.tensor_type@);
            assert forall|k: int| 0 <= k < more.len() implies (
            #[trigger] next.shards[first + k]).tensor_type == value.tensor_type@
                && next.shards[first + k].extents == parts[k].1 && next.shards[first + k].tile
                == parts[k].0 by {
                if k < i {
                    assert(next.shards[first + k] == s.shards[first + k]);
                }
            }
            lemma_place_shards(next, value, parts, i + 1, more, first);
            if let Ok((t, _)) = place_shards_from(next, value, parts, i + 1, more) {
                assert forall|k: int| 0 <= k < s.shards.len() implies s.shards[k]
                    == #[trigger] t.shards[k] by {
                    assert(next.shards[k] == t.shards[k]);
                }
                assert(s.shards =~= t.shards.subrange(0, s.shards.len() as int));
            }
        }
    }
}

proof fn lemma_place_rotated_shards(
    s: StateModel,
    value: MidValue,
    parts: Seq<(u16, Seq<ShardExtent>)>,
    bytes: Seq<u64>,
    offset: u16,
    tile_count: u16,
    loads: Seq<u64>,
    i: int,
    done: Seq<LowShardId>,
    first: int,
)
    requires
        0 < tile_count,
        0 <= i <= parts.len(),
        0 <= first,
        done.len() == i,
        first + i == s.shards.len(),
        parts_placed(s.shards, value, parts, done, first),
        forall|k: int|
            0 <= k < i ==> (#[trigger] s.shards[first + k]).tile as int == (parts[k].0 + offset)
                % (tile_count as int),
    ensures
        match place_rotated_from(s, value, parts, bytes, offset, tile_count, loads, i, done) {
            Ok((t, _, ids)) => {
                &&& t == (StateModel { shards: t.shards, ..s })
                &&& s.shards.is_prefix_of(t.shards)
                &&& ids.len() == parts.len()
                &&& t.shards.len() == first + parts.len()
                &&& parts_placed(t.shards, value, parts, ids, first)
                &&& forall|k: int|
                    0 <= k < parts.len() ==> (#[trigger] t.shards[first + k]).tile as int == (
                    parts[k].0 + offset) % (tile_count as int)
            },
            Err(_) => true,
        },
    decreases parts.len() - i,
{
    if i < parts.len() {
        let tile = rotated(parts[i].0 as int, offset, tile_count);
        let shard = value_shard(value, tile as u16, parts[i].1);
        assert(0 <= (parts[i].0 + offset) % (tile_count as int) < tile_count);
        if loads[tile] + bytes[i] <= u64::MAX {
            if let Ok((next, id)) = push_shard(s, shard) {
                let more = done.push(id);
                assert forall|k: int| 0 <= k < more.len() implies (
                #[trigger] next.shards[first + k]).tensor_type == value.tensor_type@
                    && next.shards[first + k].extents == parts[k].1
                    && next.shards[first + k].tile as int == (parts[k].0 + offset) % (
                tile_count as int) by {
                    if k < i {
                        assert(next.shards[first + k] == s.shards[first + k]);
                    }
                }
                let more_loads = loads.update(tile, (loads[tile] + bytes[i]) as u64);
                lemma_place_rotated_shards(
                    next,
                    value,
                    parts,
                    bytes,
                    offset,
                    tile_count,
                    more_loads,
                    i + 1,
                    more,
                    first,
                );
                if let Ok((t, _, _)) = place_rotated_from(
                    next,
                    value,
                    parts,
                    bytes,
                    offset,
                    tile_count,
                    more_loads,
                    i + 1,
                    more,
                ) {
                    assert forall|k: int| 0 <= k < s.shards.len() implies s.shards[k]
                        == #[trigger] t.shards[k] by {
                        assert(next.shards[k] == t.shards[k]);
                    }
                    assert(s.shards =~= t.shards.subrange(0, s.shards.len() as int));
                }
            }
        }
    }
}

/// A value is placed: recorded under its id, with new shards as its layout asks.
spec fn is_placed<M: Target>(
    target: &M,
    s: StateModel,
    t: StateModel,
    graph: MidGraph,
    value: MidValue,
    tile_count: u16,
) -> bool {
    let id = value.id.0 as int;
    &&& id < s.canonical.len()
    &&& t.canonical == s.canonical.update(id, t.canonical[id])
    &&& t.tile_count == s.tile_count
    &&& s.shards.is_prefix_of(t.shards)
    &&& holds_value(target, t.shards, value, t.canonical[id])
    &&& stands_on_tiles(
        target,
        t.shards,
        value,
        t.canonical[id],
        tile_count,
        is_rotated(graph, value),
    )
    &&& forall|k: int|
        0 <= k < t.canonical[id].len() ==> s.shards.len() <= (
        #[trigger] t.canonical[id][k]).0 < t.shards.len()
}

proof fn lemma_place_value<M: Target>(
    target: &M,
    s: StateModel,
    graph: MidGraph,
    value: MidValue,
    tile_count: u16,
    p: Placement,
)
    ensures
        match place_value(target, s, graph, value, tile_count, p) {
            Ok((t, _)) => is_placed(target, s, t, graph, value, tile_count),
            Err(_) => true,
        },
{
    if let Ok((t, _)) = place_value(target, s, graph, value, tile_count, p) {
        let resolved = target.spec_resolve(
            value.tensor_type@.format.layout,
            value.tensor_type@.shape,
        )->Ok_0;
        let parts = resolved.shards;
        let first = s.shards.len() as int;
        let id = value.id.0 as int;
        if is_rotated(graph, value) {
            let bytes = shard_bytes_from(target, value, parts, 0, Seq::empty())->Ok_0;
            let offset = match offset_from(p.offsets, value.storage_group, 0) {
                Some(offset) => offset,
                None => best_offset(p.loads, bytes, tile_count),
            };
            lemma_place_rotated_shards(
                s,
                value,
                parts,
                bytes,
                offset,
                tile_count,
                p.loads,
                0,
                Seq::empty(),
                first,
            );
            let (next, _, ids) = place_rotated_from(
                s,
                value,
                parts,
                bytes,
                offset,
                tile_count,
                p.loads,
                0,
                Seq::empty(),
            )->Ok_0;
            assert(t.canonical[id] == ids);
            let by = (offset as int) % (tile_count as int);
            assert forall|k: int| 0 <= k < ids.len() implies t.shards[(
            #[trigger] ids[k]).0 as int].tile as int == (parts[k].0 + by) % (
            tile_count as int) by {
                assert(t.shards[first + k].tile as int == (parts[k].0 + offset) % (
                tile_count as int));
                vstd::arithmetic::div_mod::lemma_add_mod_noop(
                    parts[k].0 as int,
                    offset as int,
                    tile_count as int,
                );
                vstd::arithmetic::div_mod::lemma_add_mod_noop(
                    parts[k].0 as int,
                    by,
                    tile_count as int,
                );
                vstd::arithmetic::div_mod::lemma_mod_twice(offset as int, tile_count as int);
            }
            assert(moved_by(t.shards, ids, parts, tile_count, by));
        } else {
            lemma_place_shards(s, value, parts, 0, Seq::empty(), first);
            let (next, ids) = place_shards_from(s, value, parts, 0, Seq::empty())->Ok_0;
            assert(t.canonical[id] == ids);
            assert forall|k: int| 0 <= k < ids.len() implies t.shards[(
            #[trigger] ids[k]).0 as int].tile == parts[k].0 by {
                assert(t.shards[first + k].tile == parts[k].0);
            }
        }
        let ids = t.canonical[id];
        assert forall|k: int| 0 <= k < ids.len() implies {
            &&& (#[trigger] ids[k]).0 < t.shards.len()
            &&& t.shards[ids[k].0 as int].tensor_type == value.tensor_type@
            &&& t.shards[ids[k].0 as int].extents == resolved.shards[k].1
        } by {
            assert(t.shards[first + k].tensor_type == value.tensor_type@);
        }
        assert(t.canonical =~= s.canonical.update(id, ids));
    }
}

/// The first `count` values are placed, none of them on shards of another, and
/// no other value is.
spec fn values_placed<M: Target>(
    target: &M,
    s: StateModel,
    graph: MidGraph,
    tile_count: u16,
    count: int,
) -> bool {
    &&& s.canonical.len() == graph.values@.len()
    &&& values_known(s)
    &&& forall|v: int|
        0 <= v < count ==> value_stands(target, s, graph, tile_count, #[trigger] graph.values@[v])
    &&& forall|x: int|
        0 <= x < s.canonical.len() && (#[trigger] s.canonical[x]).len() > 0 ==> exists|v: int|
            0 <= v < count && (#[trigger] graph.values@[v]).id.0 == x
    &&& forall|x: int, y: int|
        0 <= x < s.canonical.len() && 0 <= y < s.canonical.len() && x != y ==> #[trigger] apart(
            s.canonical[x],
            s.canonical[y],
        )
}

/// A value has its shards.
spec fn value_stands<M: Target>(
    target: &M,
    s: StateModel,
    graph: MidGraph,
    tile_count: u16,
    value: MidValue,
) -> bool {
    let id = value.id.0 as int;
    &&& id < s.canonical.len()
    &&& holds_value(target, s.shards, value, s.canonical[id])
    &&& stands_on_tiles(
        target,
        s.shards,
        value,
        s.canonical[id],
        tile_count,
        is_rotated(graph, value),
    )
}

/// What a value has it still has where its shards are the same but for what they
/// are defined as.
proof fn lemma_value_still_stands<M: Target>(
    target: &M,
    s: StateModel,
    t: StateModel,
    graph: MidGraph,
    tile_count: u16,
    value: MidValue,
)
    requires
        value_stands(target, s, graph, tile_count, value),
        t.canonical.len() == s.canonical.len(),
        t.canonical[value.id.0 as int] == s.canonical[value.id.0 as int],
        s.shards.len() <= t.shards.len(),
        forall|i: int| 0 <= i < s.shards.len() ==> same_shard(#[trigger] s.shards[i], t.shards[i]),
    ensures
        value_stands(target, t, graph, tile_count, value),
{
    let ids = s.canonical[value.id.0 as int];
    let parts = target.spec_resolve(
        value.tensor_type@.format.layout,
        value.tensor_type@.shape,
    )->Ok_0.shards;
    assert forall|k: int| 0 <= k < ids.len() implies {
        &&& (#[trigger] ids[k]).0 < t.shards.len()
        &&& t.shards[ids[k].0 as int].tensor_type == value.tensor_type@
        &&& t.shards[ids[k].0 as int].extents == parts[k].1
        &&& t.shards[ids[k].0 as int].tile == s.shards[ids[k].0 as int].tile
    } by {
        assert(same_shard(s.shards[ids[k].0 as int], t.shards[ids[k].0 as int]));
    }
    if is_rotated(graph, value) {
        let offset = choose|offset: int|
            0 <= offset < tile_count && #[trigger] moved_by(
                s.shards,
                ids,
                parts,
                tile_count,
                offset,
            );
        assert(moved_by(t.shards, ids, parts, tile_count, offset));
    }
}

proof fn lemma_place_values<M: Target>(
    target: &M,
    s: StateModel,
    graph: MidGraph,
    tile_count: u16,
    v: int,
    p: Placement,
)
    requires
        ids_differ(graph),
        0 <= v <= graph.values@.len(),
        values_placed(target, s, graph, tile_count, v),
    ensures
        match place_values_from(target, s, graph, tile_count, v, p) {
            Ok(t) => values_placed(
                target,
                t,
                graph,
                tile_count,
                graph.values@.len() as int,
            ),
            Err(_) => true,
        },
    decreases graph.values@.len() - v,
{
    if v < graph.values@.len() {
        let value = graph.values@[v];
        lemma_place_value(target, s, graph, value, tile_count, p);
        if let Ok((next, more)) = place_value(target, s, graph, value, tile_count, p) {
            let id = value.id.0 as int;
            let own = next.canonical[id];
            assert forall|i: int| 0 <= i < s.shards.len() implies same_shard(
                #[trigger] s.shards[i],
                next.shards[i],
            ) by {
                assert(s.shards[i] == next.shards.subrange(0, s.shards.len() as int)[i]);
            }
            assert forall|w: int| 0 <= w < v + 1 implies value_stands(
                target,
                next,
                graph,
                tile_count,
                #[trigger] graph.values@[w],
            ) by {
                if w < v {
                    assert(graph.values@[w].id != graph.values@[v].id);
                    assert(value_stands(target, s, graph, tile_count, graph.values@[w]));
                    lemma_value_still_stands(
                        target,
                        s,
                        next,
                        graph,
                        tile_count,
                        graph.values@[w],
                    );
                }
            }
            assert forall|x: int, k: int|
                0 <= x < next.canonical.len() && 0 <= k < next.canonical[x].len() implies (
            #[trigger] next.canonical[x][k]).0 < next.shards.len() && (x != id
                ==> next.canonical[x][k].0 < s.shards.len()) by {
                if x != id {
                    assert(s.canonical[x][k].0 < s.shards.len());
                }
            }
            assert forall|x: int|
                0 <= x < next.canonical.len() && (#[trigger] next.canonical[x]).len()
                    > 0 implies exists|w: int|
                0 <= w < v + 1 && (#[trigger] graph.values@[w]).id.0 == x by {
                if x == id {
                    assert(graph.values@[v].id.0 == x);
                } else {
                    assert(s.canonical[x].len() > 0);
                    let w = choose|w: int| 0 <= w < v && (#[trigger] graph.values@[w]).id.0 == x;
                    assert(graph.values@[w].id.0 == x);
                }
            }
            assert forall|x: int, y: int|
                0 <= x < next.canonical.len() && 0 <= y < next.canonical.len() && x
                    != y implies #[trigger] apart(next.canonical[x], next.canonical[y]) by {
                let a = next.canonical[x];
                let b = next.canonical[y];
                assert forall|k: int, l: int| 0 <= k < a.len() && 0 <= l < b.len() implies (
                #[trigger] a[k]) != (#[trigger] b[l]) by {
                    if x == id {
                        assert(own[k].0 >= s.shards.len());
                        assert(next.canonical[y][l].0 < s.shards.len());
                    } else if y == id {
                        assert(own[l].0 >= s.shards.len());
                        assert(next.canonical[x][k].0 < s.shards.len());
                    } else {
                        assert(apart(s.canonical[x], s.canonical[y]));
                        assert(s.canonical[x][k] != s.canonical[y][l]);
                    }
                }
            }
            lemma_place_values(target, next, graph, tile_count, v + 1, more);
        }
    }
}

// ---------------------------------------------------------------- listing

/// The listing has a value with its shards.
pub open spec fn lists(values: Seq<ValueModel>, value: MidValueId, ids: Seq<LowShardId>) -> bool {
    values.contains(ValueModel { value, shards: ids })
}

proof fn lemma_outputs(
    s: StateModel,
    outputs: Seq<MidValueId>,
    i: int,
    done: Seq<ValueModel>,
)
    requires
        0 <= i <= outputs.len(),
        done.len() == i,
        forall|k: int| 0 <= k < i ==> names(s, outputs[k], #[trigger] done[k]),
    ensures
        match outputs_from(s, outputs, i, done) {
            Ok(all) => all.len() == outputs.len() && forall|k: int|
                0 <= k < all.len() ==> names(s, outputs[k], #[trigger] all[k]),
            Err(_) => true,
        },
    decreases outputs.len() - i,
{
    if i < outputs.len() {
        if outputs[i].0 < s.canonical.len() && s.canonical[outputs[i].0 as int].len() > 0 {
            let entry = ValueModel { value: outputs[i], shards: s.canonical[outputs[i].0 as int] };
            lemma_outputs(s, outputs, i + 1, done.push(entry));
        }
    }
}

/// The entry is that of the value: its id, and all its shards.
spec fn names(s: StateModel, value: MidValueId, entry: ValueModel) -> bool {
    &&& entry.value == value
    &&& value.0 < s.canonical.len()
    &&& entry.shards == s.canonical[value.0 as int]
    &&& entry.shards.len() > 0
}

proof fn lemma_inputs(s: StateModel, inputs: Seq<MidInput>, i: int, done: Seq<InputModel>)
    requires
        0 <= i <= inputs.len(),
        done.len() == i,
        forall|k: int| 0 <= k < i ==> names_input(s, inputs[k], #[trigger] done[k]),
    ensures
        match inputs_from(s, inputs, i, done) {
            Ok(all) => all.len() == inputs.len() && forall|k: int|
                0 <= k < all.len() ==> names_input(s, inputs[k], #[trigger] all[k]),
            Err(_) => true,
        },
    decreases inputs.len() - i,
{
    if i < inputs.len() {
        let value = inputs[i].value;
        if value.0 < s.canonical.len() && s.canonical[value.0 as int].len() > 0 {
            let entry = InputModel {
                name: inputs[i].name@,
                kind: inputs[i].kind,
                value,
                shards: s.canonical[value.0 as int],
            };
            lemma_inputs(s, inputs, i + 1, done.push(entry));
        }
    }
}

spec fn names_input(s: StateModel, input: MidInput, entry: InputModel) -> bool {
    &&& entry.name == input.name@
    &&& entry.kind == input.kind
    &&& names(s, input.value, ValueModel { value: entry.value, shards: entry.shards })
}

/// The listing from `start` on is of the values from `v` on, in order, without
/// those that have no shards.
spec fn lists_from(
    s: StateModel,
    values: Seq<MidValue>,
    all: Seq<ValueModel>,
    start: int,
    v: int,
) -> bool {
    &&& start <= all.len()
    &&& forall|j: int|
        start <= j < all.len() ==> exists|w: int|
            v <= w < values.len() && names(s, (#[trigger] values[w]).id, #[trigger] all[j])
    &&& forall|w: int|
        v <= w < values.len() && (#[trigger] values[w]).id.0 < s.canonical.len()
            && s.canonical[values[w].id.0 as int].len() > 0 ==> exists|j: int|
            start <= j < all.len() && names(s, values[w].id, #[trigger] all[j])
    &&& forall|j: int, l: int|
        start <= j < l < all.len() ==> (#[trigger] all[j]).value != (#[trigger] all[l]).value
}

/// The listing begins with what is done.
spec fn begins(all: Seq<ValueModel>, done: Seq<ValueModel>) -> bool {
    &&& done.len() <= all.len()
    &&& forall|j: int| 0 <= j < done.len() ==> #[trigger] all[j] == done[j]
}

proof fn lemma_values(
    s: StateModel,
    values: Seq<MidValue>,
    v: int,
    done: Seq<ValueModel>,
)
    requires
        0 <= v <= values.len(),
        forall|a: int, b: int|
            0 <= a < b < values.len() ==> (#[trigger] values[a]).id != (#[trigger] values[b]).id,
    ensures
        begins(values_from(s, values, v, done), done),
        lists_from(s, values, values_from(s, values, v, done), done.len() as int, v),
    decreases values.len() - v,
{
    let all = values_from(s, values, v, done);
    if v < values.len() {
        let id = values[v].id;
        let start = done.len() as int;
        if id.0 < s.canonical.len() && s.canonical[id.0 as int].len() > 0 {
            let entry = ValueModel { value: id, shards: s.canonical[id.0 as int] };
            let more = done.push(entry);
            lemma_values(s, values, v + 1, more);
            assert(all[start] == more[start]);
            assert(names(s, id, all[start]));
            assert forall|j: int| 0 <= j < done.len() implies #[trigger] all[j] == done[j] by {
                assert(more[j] == done[j]);
            }
            assert forall|j: int| start <= j < all.len() implies exists|w: int|
                v <= w < values.len() && names(
                    s,
                    (#[trigger] values[w]).id,
                    #[trigger] all[j],
                ) by {
                if j == start {
                    assert(names(s, values[v].id, all[j]));
                } else {
                    let w = choose|w: int|
                        v + 1 <= w < values.len() && names(
                            s,
                            (#[trigger] values[w]).id,
                            all[j],
                        );
                    assert(names(s, values[w].id, all[j]));
                }
            }
            assert forall|j: int, l: int| start <= j < l < all.len() implies (
            #[trigger] all[j]).value != (#[trigger] all[l]).value by {
                if j == start {
                    let w = choose|w: int|
                        v + 1 <= w < values.len() && names(
                            s,
                            (#[trigger] values[w]).id,
                            all[l],
                        );
                    assert(values[v].id != values[w].id);
                }
            }
        } else {
            lemma_values(s, values, v + 1, done);
            assert forall|j: int| start <= j < all.len() implies exists|w: int|
                v <= w < values.len() && names(
                    s,
                    (#[trigger] values[w]).id,
                    #[trigger] all[j],
                ) by {
                let w = choose|w: int|
                    v + 1 <= w < values.len() && names(s, (#[trigger] values[w]).id, all[j]);
                assert(names(s, values[w].id, all[j]));
            }
        }
    }
}

/// No shard is in both lists.
pub open spec fn apart(a: Seq<LowShardId>, b: Seq<LowShardId>) -> bool {
    forall|k: int, l: int|
        0 <= k < a.len() && 0 <= l < b.len() ==> (#[trigger] a[k]) != (#[trigger] b[l])
}

/// The listed value is one of the graph, and its shards hold it as its layout
/// divides it, on the tiles of the layout unless it is moved round.
pub open spec fn is_value_of<M: Target>(
    target: &M,
    shards: Seq<ShardModel>,
    graph: MidGraph,
    tile_count: u16,
    entry: ValueModel,
    v: int,
) -> bool {
    &&& 0 <= v < graph.values@.len()
    &&& entry.value == graph.values@[v].id
    &&& holds_value(target, shards, graph.values@[v], entry.shards)
    &&& stands_on_tiles(
        target,
        shards,
        graph.values@[v],
        entry.shards,
        tile_count,
        is_rotated(graph, graph.values@[v]),
    )
}

/// A program's outputs are those of the graph, in order. Each has shards, and
/// they are those that the program lists for the value.
pub open spec fn outputs_listed(graph: MidGraph, program: ProgramModel) -> bool {
    &&& program.outputs.len() == graph.outputs@.len()
    &&& forall|i: int|
        0 <= i < graph.outputs@.len() ==> {
            &&& (#[trigger] program.outputs[i]).value == graph.outputs@[i]
            &&& program.outputs[i].shards.len() > 0
            &&& program.values.contains(program.outputs[i])
        }
}

/// A program's inputs are those of the graph, in order, with their names and
/// kinds. Each has shards, and they are those that the program lists for the
/// value.
pub open spec fn inputs_listed(graph: MidGraph, program: ProgramModel) -> bool {
    &&& program.inputs.len() == graph.inputs@.len()
    &&& forall|i: int|
        0 <= i < graph.inputs@.len() ==> {
            &&& (#[trigger] program.inputs[i]).name == graph.inputs@[i].name@
            &&& program.inputs[i].kind == graph.inputs@[i].kind
            &&& program.inputs[i].value == graph.inputs@[i].value
            &&& program.inputs[i].shards.len() > 0
            &&& lists(program.values, graph.inputs@[i].value, program.inputs[i].shards)
        }
}

/// Every listed value has shards and is one of the graph, held as its layout
/// divides it.
pub open spec fn values_held<M: Target>(
    target: &M,
    graph: MidGraph,
    tile_count: u16,
    shards: Seq<ShardModel>,
    values: Seq<ValueModel>,
) -> bool {
    forall|j: int|
        0 <= j < values.len() ==> (#[trigger] values[j]).shards.len() > 0 && exists|v: int|
            #[trigger] is_value_of(target, shards, graph, tile_count, values[j], v)
}

/// Every value of the graph that its layout gives a shard is listed.
pub open spec fn values_complete<M: Target>(
    target: &M,
    graph: MidGraph,
    values: Seq<ValueModel>,
) -> bool {
    forall|v: int|
        0 <= v < graph.values@.len() ==> match target.spec_resolve(
            (#[trigger] graph.values@[v]).tensor_type@.format.layout,
            graph.values@[v].tensor_type@.shape,
        ) {
            Ok(resolved) => resolved.shards.len() > 0 ==> exists|j: int|
                0 <= j < values.len() && (#[trigger] values[j]).value == graph.values@[v].id,
            Err(_) => false,
        }
}

/// No value is listed twice, and no two values have a shard in common.
pub open spec fn values_apart(values: Seq<ValueModel>) -> bool {
    forall|j: int, l: int|
        0 <= j < l < values.len() ==> (#[trigger] values[j]).value != (
        #[trigger] values[l]).value && apart(values[j].shards, values[l].shards)
}

/// What has shards is listed with them.
proof fn lemma_named_is_listed<M: Target>(
    target: &M,
    s: StateModel,
    graph: MidGraph,
    tile_count: u16,
    x: MidValueId,
    entry: ValueModel,
)
    requires
        ids_differ(graph),
        values_placed(target, s, graph, tile_count, graph.values@.len() as int),
        names(s, x, entry),
    ensures
        values_from(s, graph.values@, 0, Seq::empty()).contains(entry),
{
    let all = values_from(s, graph.values@, 0, Seq::empty());
    lemma_values(s, graph.values@, 0, Seq::empty());
    assert(s.canonical[x.0 as int].len() > 0);
    let v = choose|v: int|
        0 <= v < graph.values@.len() && (#[trigger] graph.values@[v]).id.0 == x.0 as int;
    let value = graph.values@[v];
    assert(value.id == x);
    let j = choose|j: int| 0 <= j < all.len() && names(s, value.id, #[trigger] all[j]);
    assert(all[j] == entry);
}

proof fn lemma_listed_values_hold<M: Target>(
    target: &M,
    s: StateModel,
    graph: MidGraph,
    tile_count: u16,
)
    requires
        ids_differ(graph),
        values_placed(target, s, graph, tile_count, graph.values@.len() as int),
    ensures
        values_held(
            target,
            graph,
            tile_count,
            s.shards,
            values_from(s, graph.values@, 0, Seq::empty()),
        ),
        values_complete(target, graph, values_from(s, graph.values@, 0, Seq::empty())),
{
    let all = values_from(s, graph.values@, 0, Seq::empty());
    lemma_values(s, graph.values@, 0, Seq::empty());
    assert forall|j: int| 0 <= j < all.len() implies (#[trigger] all[j]).shards.len() > 0
        && exists|v: int| #[trigger]
        is_value_of(target, s.shards, graph, tile_count, all[j], v) by {
        let v = choose|v: int|
            0 <= v < graph.values@.len() && names(s, (#[trigger] graph.values@[v]).id, all[j]);
        assert(value_stands(target, s, graph, tile_count, graph.values@[v]));
        assert(is_value_of(target, s.shards, graph, tile_count, all[j], v));
    }
    assert forall|v: int| 0 <= v < graph.values@.len() implies match target.spec_resolve(
        (#[trigger] graph.values@[v]).tensor_type@.format.layout,
        graph.values@[v].tensor_type@.shape,
    ) {
        Ok(resolved) => resolved.shards.len() > 0 ==> exists|j: int|
            0 <= j < all.len() && (#[trigger] all[j]).value == graph.values@[v].id,
        Err(_) => false,
    } by {
        let value = graph.values@[v];
        assert(value_stands(target, s, graph, tile_count, value));
        if s.canonical[value.id.0 as int].len() > 0 {
            let j = choose|j: int| 0 <= j < all.len() && names(s, value.id, #[trigger] all[j]);
            assert(all[j].value == value.id);
        }
    }
}

proof fn lemma_listed_values_are_apart<M: Target>(
    target: &M,
    s: StateModel,
    graph: MidGraph,
    tile_count: u16,
)
    requires
        ids_differ(graph),
        values_placed(target, s, graph, tile_count, graph.values@.len() as int),
    ensures
        values_apart(values_from(s, graph.values@, 0, Seq::empty())),
{
    let all = values_from(s, graph.values@, 0, Seq::empty());
    lemma_values(s, graph.values@, 0, Seq::empty());
    assert forall|j: int, l: int| 0 <= j < l < all.len() implies (#[trigger] all[j]).value != (
    #[trigger] all[l]).value && apart(all[j].shards, all[l].shards) by {
        let v = choose|v: int|
            0 <= v < graph.values@.len() && names(s, (#[trigger] graph.values@[v]).id, all[j]);
        let w = choose|w: int|
            0 <= w < graph.values@.len() && names(s, (#[trigger] graph.values@[w]).id, all[l]);
        let x = all[j].value.0 as int;
        let y = all[l].value.0 as int;
        assert(x != y);
        assert(apart(s.canonical[x], s.canonical[y]));
    }
}

/// The values are still placed where a schedule has the same shards for each.
proof fn lemma_values_stay_placed<M: Target>(
    target: &M,
    s: StateModel,
    t: StateModel,
    graph: MidGraph,
    tile_count: u16,
)
    requires
        values_placed(target, s, graph, tile_count, graph.values@.len() as int),
        t.canonical == s.canonical,
        s.shards.len() <= t.shards.len(),
        forall|i: int| 0 <= i < s.shards.len() ==> same_shard(#[trigger] s.shards[i], t.shards[i]),
    ensures
        values_placed(target, t, graph, tile_count, graph.values@.len() as int),
{
    assert forall|v: int| 0 <= v < graph.values@.len() implies value_stands(
        target,
        t,
        graph,
        tile_count,
        #[trigger] graph.values@[v],
    ) by {
        assert(value_stands(target, s, graph, tile_count, graph.values@[v]));
        lemma_value_still_stands(target, s, t, graph, tile_count, graph.values@[v]);
    }
    assert forall|x: int| 0 <= x < t.canonical.len() && (#[trigger] t.canonical[x]).len()
        > 0 implies exists|v: int|
        0 <= v < graph.values@.len() && (#[trigger] graph.values@[v]).id.0 == x by {
        assert(s.canonical[x].len() > 0);
    }
}

/// A program has its graph's inputs, outputs and values. The outputs are the
/// graph's, in order, and so are the inputs, with their names and kinds; each has
/// shards, and they are those that the program lists for the value. Every value
/// that its layout gives a shard is listed, once; it is held as its layout divides
/// it; and no two values have a shard in common.
pub proof fn lemma_programs_hold_their_values<M: Target>(
    target: &M,
    graph: MidGraph,
    config: PipelineConfig,
)
    requires
        ids_differ(graph),
    ensures
        match lowered(target, graph, config) {
            Ok(program) => {
                &&& program.tile_count == config.tile_count
                &&& outputs_listed(graph, program)
                &&& inputs_listed(graph, program)
                &&& values_held(
                    target,
                    graph,
                    config.tile_count,
                    program.shards,
                    program.values,
                )
                &&& values_complete(target, graph, program.values)
                &&& values_apart(program.values)
            },
            Err(_) => true,
        },
{
    if let Ok(program) = lowered(target, graph, config) {
        let start = initial_state(target, graph, config.tile_count)->Ok_0;
        let s = lower_region(
            target,
            start,
            graph.operations@,
            graph.outputs@,
            config.diagnostic_checkpoints,
        )->Ok_0;
        lemma_initial_values(target, graph, config.tile_count);
        lemma_region_keeps(
            target,
            start,
            graph.operations@,
            graph.outputs@,
            config.diagnostic_checkpoints,
        );
        lemma_initial_state(target, graph, config.tile_count);
        lemma_values_stay_placed(target, start, s, graph, config.tile_count);
        lemma_listed_values_hold(target, s, graph, config.tile_count);
        lemma_listed_values_are_apart(target, s, graph, config.tile_count);
        lemma_outputs(s, graph.outputs@, 0, Seq::empty());
        lemma_inputs(s, graph.inputs@, 0, Seq::empty());
        assert forall|i: int| 0 <= i < graph.outputs@.len() implies {
            &&& (#[trigger] program.outputs[i]).value == graph.outputs@[i]
            &&& program.outputs[i].shards.len() > 0
            &&& program.values.contains(program.outputs[i])
        } by {
            lemma_named_is_listed(
                target,
                s,
                graph,
                config.tile_count,
                graph.outputs@[i],
                program.outputs[i],
            );
        }
        assert forall|i: int| 0 <= i < graph.inputs@.len() implies {
            &&& (#[trigger] program.inputs[i]).name == graph.inputs@[i].name@
            &&& program.inputs[i].kind == graph.inputs@[i].kind
            &&& program.inputs[i].value == graph.inputs@[i].value
            &&& program.inputs[i].shards.len() > 0
            &&& lists(program.values, graph.inputs@[i].value, program.inputs[i].shards)
        } by {
            let entry = program.inputs[i];
            assert(names_input(s, graph.inputs@[i], entry));
            lemma_named_is_listed(
                target,
                s,
                graph,
                config.tile_count,
                graph.inputs@[i].value,
                ValueModel { value: entry.value, shards: entry.shards },
            );
        }
    }
}

proof fn lemma_initial_values<M: Target>(target: &M, graph: MidGraph, tile_count: u16)
    requires
        ids_differ(graph),
    ensures
        match initial_state(target, graph, tile_count) {
            Ok(s) => values_placed(
                target,
                s,
                graph,
                tile_count,
                graph.values@.len() as int,
            ),
            Err(_) => true,
        },
{
    let start = crate::placement::empty_state(graph.values@.len(), tile_count);
    assert(values_placed(target, start, graph, tile_count, 0));
    lemma_place_values(
        target,
        start,
        graph,
        tile_count,
        0,
        Placement { loads: Seq::new(tile_count as nat, |t: int| 0u64), offsets: Seq::empty() },
    );
}

/// Lowering starts with shards for all values, and all of them exist.
pub proof fn lemma_values_start_known<M: Target>(target: &M, graph: MidGraph, tile_count: u16)
    requires
        ids_differ(graph),
    ensures
        match initial_state(target, graph, tile_count) {
            Ok(s) => values_known(s),
            Err(_) => true,
        },
{
    lemma_initial_values(target, graph, tile_count);
}

/// Lowering a region changes neither the shards of a value nor what they hold.
proof fn lemma_region_keeps<M: Target>(
    target: &M,
    s: StateModel,
    operations: Seq<crate::mid::MidOperation>,
    retained: Seq<MidValueId>,
    checkpoints: bool,
)
    ensures
        match lower_region(target, s, operations, retained, checkpoints) {
            Ok(t) => {
                &&& t.canonical == s.canonical
                &&& t.tile_count == s.tile_count
                &&& s.shards.len() <= t.shards.len()
                &&& forall|i: int|
                    0 <= i < s.shards.len() ==> same_shard(#[trigger] s.shards[i], t.shards[i])
            },
            Err(_) => true,
        },
{
    let start = StateModel { tiles: no_work(s.tile_count), ..s };
    lemma_lower_operations_from(target, start, operations, retained, checkpoints, 0, 0);
    reveal(follows);
    if let Ok(t) = lower_region(target, s, operations, retained, checkpoints) {
        assert forall|i: int| 0 <= i < s.shards.len() implies same_shard(
            #[trigger] s.shards[i],
            t.shards[i],
        ) by {
            assert(same_shard(start.shards[i], t.shards[i]));
        }
    }
}

} // verus!
