//! The first shards: every value is divided over tiles, and the shards of
//! parameters are rotated so that they share out the memory of the tiles.

use crate::fragments::sat_add;
use crate::low::{
    LowLoweringError, LowLoweringResult, LowShard, LowShardId, ShardDefinition, ShardModel,
};
use crate::mid::{GraphInputKind, MidGraph, MidInput, MidValue, MidValueId};
use crate::model::{Model, copy_all, deep, group_deep};
use crate::region::{new_work_lists, no_work};
use crate::state::{did, push_shard, LoweringState, ShardList, StateModel, Step};
use crate::target::{ResolvedShard, Target};
use crate::tensor::ShardExtent;
use vstd::prelude::*;

verus! {

// ---------------------------------------------------------------- parameters

/// Some parameter input of the graph has the origin.
pub open spec fn is_parameter_origin(graph: MidGraph, origin: MidValueId) -> bool {
    exists|i: int|
        0 <= i < graph.inputs@.len() && (#[trigger] graph.inputs@[i]).kind
            == GraphInputKind::Parameter && graph.values@[graph.inputs@[i].value.0 as int].origin
            == origin
}

/// Some value with the id comes from a parameter.
pub open spec fn is_parameter(graph: MidGraph, id: MidValueId) -> bool {
    exists|v: int|
        0 <= v < graph.values@.len() && (#[trigger] graph.values@[v]).id == id
            && is_parameter_origin(graph, graph.values@[v].origin)
}

/// The storage group of a value, found by its id.
pub open spec fn group_of(graph: MidGraph, v: int) -> MidValueId {
    graph.values@[graph.values@[v].id.0 as int].storage_group
}

/// Some value that comes from a parameter is stored with the group.
pub open spec fn is_parameter_group(graph: MidGraph, group: MidValueId) -> bool {
    exists|v: int|
        0 <= v < graph.values@.len() && is_parameter_origin(graph, graph.values@[v].origin)
            && #[trigger] group_of(graph, v) == group
}

/// The shards of the value are rotated over the tiles.
pub open spec fn is_rotated(graph: MidGraph, value: MidValue) -> bool {
    is_parameter(graph, value.id) || is_parameter_group(graph, value.storage_group)
}

/// The first value from position `v` on that comes from a parameter and whose
/// id is no position of a value.
pub open spec fn unknown_id_from(graph: MidGraph, v: int) -> Option<MidValueId>
    decreases graph.values@.len() - v,
{
    if v >= graph.values@.len() {
        None
    } else if graph.values@[v].id.0 >= graph.values@.len() && is_parameter_origin(
        graph,
        graph.values@[v].origin,
    ) {
        Some(graph.values@[v].id)
    } else {
        unknown_id_from(graph, v + 1)
    }
}

/// The first parameter input from `i` on whose value does not exist.
pub open spec fn unknown_parameter_from(inputs: Seq<MidInput>, values: nat, i: int) -> Option<
    MidValueId,
>
    decreases inputs.len() - i,
{
    if i >= inputs.len() {
        None
    } else if inputs[i].kind == GraphInputKind::Parameter && inputs[i].value.0 >= values {
        Some(inputs[i].value)
    } else {
        unknown_parameter_from(inputs, values, i + 1)
    }
}

// ---------------------------------------------------------------- rotation

/// The tile of a shard after a rotation.
pub open spec fn rotated(position: int, offset: u16, tile_count: u16) -> int {
    (position + offset) % (tile_count as int)
}

/// The loads of the tiles with the shards from `i` on added.
pub open spec fn loads_from(
    loads: Seq<u64>,
    bytes: Seq<u64>,
    offset: u16,
    tile_count: u16,
    i: int,
) -> Seq<u64>
    decreases bytes.len() - i,
{
    if i >= bytes.len() {
        loads
    } else {
        let tile = rotated(i, offset, tile_count);
        loads_from(
            loads.update(tile, sat_add(loads[tile], bytes[i])),
            bytes,
            offset,
            tile_count,
            i + 1,
        )
    }
}

/// The largest of `most` and the loads from tile `t` on.
pub open spec fn peak_from(loads: Seq<u64>, t: int, most: u64) -> u64
    decreases loads.len() - t,
{
    if t >= loads.len() {
        most
    } else {
        peak_from(
            loads,
            t + 1,
            if loads[t] > most {
                loads[t]
            } else {
                most
            },
        )
    }
}

/// The largest load of a tile after a rotation.
pub open spec fn peak(loads: Seq<u64>, bytes: Seq<u64>, offset: u16, tile_count: u16) -> u64 {
    peak_from(loads_from(loads, bytes, offset, tile_count, 0), 0, 0)
}

/// The best of `best` and the rotations from `offset` on.
pub open spec fn best_offset_from(
    loads: Seq<u64>,
    bytes: Seq<u64>,
    tile_count: u16,
    offset: int,
    best: u16,
) -> u16
    decreases tile_count - offset,
{
    if offset >= tile_count {
        best
    } else {
        best_offset_from(
            loads,
            bytes,
            tile_count,
            offset + 1,
            if peak(loads, bytes, offset as u16, tile_count) < peak(
                loads,
                bytes,
                best,
                tile_count,
            ) {
                offset as u16
            } else {
                best
            },
        )
    }
}

/// The rotation with the smallest peak load, the first of equal ones.
pub open spec fn best_offset(loads: Seq<u64>, bytes: Seq<u64>, tile_count: u16) -> u16 {
    best_offset_from(loads, bytes, tile_count, 1, 0)
}

proof fn lemma_best_offset_from(
    loads: Seq<u64>,
    bytes: Seq<u64>,
    tile_count: u16,
    offset: int,
    best: u16,
)
    requires
        best < offset <= tile_count,
        forall|o: u16|
            o < offset ==> peak(loads, bytes, best, tile_count) <= #[trigger] peak(
                loads,
                bytes,
                o,
                tile_count,
            ),
        forall|o: u16|
            o < best ==> peak(loads, bytes, best, tile_count) < #[trigger] peak(
                loads,
                bytes,
                o,
                tile_count,
            ),
    ensures
        ({
            let chosen = best_offset_from(loads, bytes, tile_count, offset, best);
            &&& chosen < tile_count
            &&& forall|o: u16|
                o < tile_count ==> peak(loads, bytes, chosen, tile_count) <= #[trigger] peak(
                    loads,
                    bytes,
                    o,
                    tile_count,
                )
            &&& forall|o: u16|
                o < chosen ==> peak(loads, bytes, chosen, tile_count) < #[trigger] peak(
                    loads,
                    bytes,
                    o,
                    tile_count,
                )
        }),
    decreases tile_count - offset,
{
    if offset < tile_count {
        let here = offset as u16;
        let next = if peak(loads, bytes, here, tile_count) < peak(loads, bytes, best, tile_count) {
            here
        } else {
            best
        };
        assert forall|o: u16| o < offset + 1 implies peak(loads, bytes, next, tile_count)
            <= #[trigger] peak(loads, bytes, o, tile_count) by {
            if o < offset {
            } else {
                assert(o == here);
            }
        }
        lemma_best_offset_from(loads, bytes, tile_count, offset + 1, next);
    }
}

/// No rotation of a parameter has a smaller peak load than the chosen one, and
/// every earlier rotation has a larger one.
pub proof fn lemma_best_offset_minimises_the_peak(
    loads: Seq<u64>,
    bytes: Seq<u64>,
    tile_count: u16,
    offset: u16,
)
    requires
        offset < tile_count,
    ensures
        best_offset(loads, bytes, tile_count) < tile_count,
        peak(loads, bytes, best_offset(loads, bytes, tile_count), tile_count) <= peak(
            loads,
            bytes,
            offset,
            tile_count,
        ),
        offset < best_offset(loads, bytes, tile_count) ==> peak(
            loads,
            bytes,
            best_offset(loads, bytes, tile_count),
            tile_count,
        ) < peak(loads, bytes, offset, tile_count),
{
    assert forall|o: u16| o < 1 implies peak(loads, bytes, 0, tile_count) <= #[trigger] peak(
        loads,
        bytes,
        o,
        tile_count,
    ) by {
        assert(o == 0);
    }
    lemma_best_offset_from(loads, bytes, tile_count, 1, 0);
}

// ---------------------------------------------------------------- placement

/// Bytes of parameters on every tile, and the rotations that are fixed.
pub struct Placement {
    pub loads: Seq<u64>,
    pub offsets: Seq<(MidValueId, u16)>,
}

/// The rotation of a group, from position `i` on.
pub open spec fn offset_from(offsets: Seq<(MidValueId, u16)>, group: MidValueId, i: int) -> Option<
    u16,
>
    decreases offsets.len() - i,
{
    if i >= offsets.len() {
        None
    } else if offsets[i].0 == group {
        Some(offsets[i].1)
    } else {
        offset_from(offsets, group, i + 1)
    }
}

/// A shard of a value.
pub open spec fn value_shard(value: MidValue, tile: u16, extents: Seq<ShardExtent>) -> ShardModel {
    ShardModel {
        id: LowShardId(0),
        tile,
        tensor_type: value.tensor_type@,
        extents,
        definition: ShardDefinition::Value(value.id),
    }
}

/// `done` followed by the bytes of the shards from `i` on.
pub open spec fn shard_bytes_from<M: Target>(
    target: &M,
    value: MidValue,
    shards: Seq<(u16, Seq<ShardExtent>)>,
    i: int,
    done: Seq<u64>,
) -> Result<Seq<u64>, LowLoweringError>
    decreases shards.len() - i,
{
    if i >= shards.len() {
        Ok(done)
    } else {
        match target.spec_storage_bytes(value.tensor_type@.format, shards[i].1) {
            Err(e) => Err(LowLoweringError::Storage(e)),
            Ok(bytes) => shard_bytes_from(target, value, shards, i + 1, done.push(bytes as u64)),
        }
    }
}

/// Adds the shards from `i` on where their layout puts them.
pub open spec fn place_shards_from(
    s: StateModel,
    value: MidValue,
    shards: Seq<(u16, Seq<ShardExtent>)>,
    i: int,
    done: Seq<LowShardId>,
) -> Result<(StateModel, Seq<LowShardId>), LowLoweringError>
    decreases shards.len() - i,
{
    if i >= shards.len() {
        Ok((s, done))
    } else {
        match push_shard(s, value_shard(value, shards[i].0, shards[i].1)) {
            Err(e) => Err(e),
            Ok((next, id)) => place_shards_from(next, value, shards, i + 1, done.push(id)),
        }
    }
}

/// Adds the shards from `i` on, rotated, and counts their bytes.
pub open spec fn place_rotated_from(
    s: StateModel,
    value: MidValue,
    shards: Seq<(u16, Seq<ShardExtent>)>,
    bytes: Seq<u64>,
    offset: u16,
    tile_count: u16,
    loads: Seq<u64>,
    i: int,
    done: Seq<LowShardId>,
) -> Result<(StateModel, Seq<u64>, Seq<LowShardId>), LowLoweringError>
    decreases shards.len() - i,
{
    if i >= shards.len() {
        Ok((s, loads, done))
    } else {
        let tile = rotated(shards[i].0 as int, offset, tile_count);
        if loads[tile] + bytes[i] > u64::MAX {
            Err(LowLoweringError::IdOverflow)
        } else {
            match push_shard(s, value_shard(value, tile as u16, shards[i].1)) {
                Err(e) => Err(e),
                Ok((next, id)) => place_rotated_from(
                    next,
                    value,
                    shards,
                    bytes,
                    offset,
                    tile_count,
                    loads.update(tile, (loads[tile] + bytes[i]) as u64),
                    i + 1,
                    done.push(id),
                ),
            }
        }
    }
}

/// Records the shards of a value.
pub open spec fn set_shards(s: StateModel, value: MidValueId, ids: Seq<LowShardId>) -> StateModel {
    StateModel { canonical: s.canonical.update(value.0 as int, ids), ..s }
}

/// Records the shards of a value, which has to be one of those that are placed.
pub open spec fn record_shards(s: StateModel, value: MidValueId, ids: Seq<LowShardId>) -> Step {
    if value.0 >= s.canonical.len() {
        Err(LowLoweringError::UnknownValue(value))
    } else {
        Ok(set_shards(s, value, ids))
    }
}

/// Places a rotated value. Values that are stored together are rotated alike.
pub open spec fn place_rotated<M: Target>(
    target: &M,
    s: StateModel,
    value: MidValue,
    tile_count: u16,
    shards: Seq<(u16, Seq<ShardExtent>)>,
    p: Placement,
) -> Result<(StateModel, Placement), LowLoweringError> {
    match shard_bytes_from(target, value, shards, 0, Seq::empty()) {
        Err(e) => Err(e),
        Ok(bytes) => {
            let known = offset_from(p.offsets, value.storage_group, 0);
            let offset = match known {
                Some(offset) => offset,
                None => best_offset(p.loads, bytes, tile_count),
            };
            let offsets = match known {
                Some(_) => p.offsets,
                None => p.offsets.push((value.storage_group, offset)),
            };
            match place_rotated_from(
                s,
                value,
                shards,
                bytes,
                offset,
                tile_count,
                p.loads,
                0,
                Seq::empty(),
            ) {
                Err(e) => Err(e),
                Ok((next, loads, ids)) => match record_shards(next, value.id, ids) {
                    Err(e) => Err(e),
                    Ok(recorded) => Ok((recorded, Placement { loads, offsets })),
                },
            }
        },
    }
}

/// Places one value.
pub open spec fn place_value<M: Target>(
    target: &M,
    s: StateModel,
    graph: MidGraph,
    value: MidValue,
    tile_count: u16,
    p: Placement,
) -> Result<(StateModel, Placement), LowLoweringError> {
    let declared = value.tensor_type.format.layout.tiling.tile_count;
    if declared == 0 || declared > tile_count {
        Err(
            LowLoweringError::TileCountMismatch {
                value: value.id,
                declared,
                scheduled: tile_count,
            },
        )
    } else {
        match target.spec_resolve(value.tensor_type@.format.layout, value.tensor_type@.shape) {
            Err(e) => Err(LowLoweringError::Layout(e)),
            Ok(resolved) => if is_rotated(graph, value) {
                place_rotated(target, s, value, tile_count, resolved.shards, p)
            } else {
                match place_shards_from(s, value, resolved.shards, 0, Seq::empty()) {
                    Err(e) => Err(e),
                    Ok((next, ids)) => match record_shards(next, value.id, ids) {
                        Err(e) => Err(e),
                        Ok(recorded) => Ok((recorded, p)),
                    },
                }
            },
        }
    }
}

/// Places the values from `v` on.
pub open spec fn place_values_from<M: Target>(
    target: &M,
    s: StateModel,
    graph: MidGraph,
    tile_count: u16,
    v: int,
    p: Placement,
) -> Step
    decreases graph.values@.len() - v,
{
    if v >= graph.values@.len() {
        Ok(s)
    } else {
        match place_value(target, s, graph, graph.values@[v], tile_count, p) {
            Err(e) => Err(e),
            Ok((next, more)) => place_values_from(target, next, graph, tile_count, v + 1, more),
        }
    }
}

/// A schedule without shards or work.
pub open spec fn empty_state(values: nat, tile_count: u16) -> StateModel {
    StateModel {
        tile_count,
        shards: Seq::empty(),
        canonical: Seq::new(values, |v: int| Seq::<LowShardId>::empty()),
        phases: Seq::empty(),
        kernel_runs: Seq::empty(),
        local_copies: Seq::empty(),
        repeat_runs: Seq::empty(),
        kernel_metadata: Seq::empty(),
        deferred_conversions: Seq::empty(),
        deferred_values: Seq::empty(),
        tiles: no_work(tile_count),
    }
}

/// The schedule with the shards of all values of a graph. Which values come from
/// parameters is settled first; every other value is looked at in its turn.
pub open spec fn initial_state<M: Target>(target: &M, graph: MidGraph, tile_count: u16) -> Step {
    match unknown_parameter_from(graph.inputs@, graph.values@.len(), 0) {
        Some(id) => Err(LowLoweringError::UnknownValue(id)),
        None => match unknown_id_from(graph, 0) {
            Some(id) => Err(LowLoweringError::UnknownValue(id)),
            None => place_values_from(
                target,
                empty_state(graph.values@.len(), tile_count),
                graph,
                tile_count,
                0,
                Placement {
                    loads: Seq::new(tile_count as nat, |t: int| 0u64),
                    offsets: Seq::empty(),
                },
            ),
        },
    }
}

// ---------------------------------------------------------------- carrying out

/// Parameter inputs name values.
pub open spec fn has_parameters(graph: MidGraph) -> bool {
    forall|i: int|
        0 <= i < graph.inputs@.len() && (#[trigger] graph.inputs@[i]).kind
            == GraphInputKind::Parameter ==> graph.inputs@[i].value.0 < graph.values@.len()
}

/// Parameter inputs name values, and the ids of values that come from
/// parameters are positions of values.
pub open spec fn is_closed(graph: MidGraph) -> bool {
    &&& has_parameters(graph)
    &&& forall|v: int|
        0 <= v < graph.values@.len() && is_parameter_origin(
            graph,
            (#[trigger] graph.values@[v]).origin,
        ) ==> graph.values@[v].id.0 < graph.values@.len()
}

fn find_unknown(graph: &MidGraph) -> (r: Option<MidValueId>)
    ensures
        match r {
            Some(id) => unknown_parameter_from(graph.inputs@, graph.values@.len(), 0) == Some(id)
                || (unknown_parameter_from(graph.inputs@, graph.values@.len(), 0) is None
                && unknown_id_from(*graph, 0) == Some(id)),
            None => unknown_parameter_from(graph.inputs@, graph.values@.len(), 0) is None
                && unknown_id_from(*graph, 0) is None && is_closed(*graph),
        },
{
    let mut i: usize = 0;
    while i < graph.inputs.len()
        invariant
            i <= graph.inputs@.len(),
            unknown_parameter_from(graph.inputs@, graph.values@.len(), 0)
                == unknown_parameter_from(graph.inputs@, graph.values@.len(), i as int),
            forall|k: int|
                0 <= k < i && (#[trigger] graph.inputs@[k]).kind == GraphInputKind::Parameter
                    ==> graph.inputs@[k].value.0 < graph.values@.len(),
        decreases graph.inputs@.len() - i,
    {
        let input = &graph.inputs[i];
        if input.kind == GraphInputKind::Parameter && input.value.0 as usize
            >= graph.values.len() {
            return Some(input.value);
        }
        i += 1;
    }
    let mut v: usize = 0;
    while v < graph.values.len()
        invariant
            v <= graph.values@.len(),
            unknown_id_from(*graph, 0) == unknown_id_from(*graph, v as int),
            forall|k: int|
                0 <= k < v && is_parameter_origin(*graph, (#[trigger] graph.values@[k]).origin)
                    ==> graph.values@[k].id.0 < graph.values@.len(),
        decreases graph.values@.len() - v,
    {
        if graph.values[v].id.0 as usize >= graph.values.len() && has_parameter_origin(
            graph,
            graph.values[v].origin,
        ) {
            return Some(graph.values[v].id);
        }
        v += 1;
    }
    None
}

fn has_parameter_origin(graph: &MidGraph, origin: MidValueId) -> (r: bool)
    requires
        has_parameters(*graph),
    ensures
        r == is_parameter_origin(*graph, origin),
{
    let mut i: usize = 0;
    while i < graph.inputs.len()
        invariant
            i <= graph.inputs@.len(),
            forall|k: int|
                0 <= k < i && (#[trigger] graph.inputs@[k]).kind == GraphInputKind::Parameter
                    ==> graph.values@[graph.inputs@[k].value.0 as int].origin != origin,
        decreases graph.inputs@.len() - i,
    {
        let input = &graph.inputs[i];
        if input.kind == GraphInputKind::Parameter && graph.values[input.value.0 as usize].origin
            == origin {
            assert(graph.inputs@[i as int].kind == GraphInputKind::Parameter);
            return true;
        }
        i += 1;
    }
    false
}

fn comes_from_parameter(graph: &MidGraph, id: MidValueId) -> (r: bool)
    requires
        is_closed(*graph),
    ensures
        r == is_parameter(*graph, id),
{
    let mut v: usize = 0;
    while v < graph.values.len()
        invariant
            v <= graph.values@.len(),
            forall|k: int|
                0 <= k < v && (#[trigger] graph.values@[k]).id == id ==> !is_parameter_origin(
                    *graph,
                    graph.values@[k].origin,
                ),
        decreases graph.values@.len() - v,
    {
        if graph.values[v].id == id && has_parameter_origin(graph, graph.values[v].origin) {
            assert(graph.values@[v as int].id == id);
            return true;
        }
        v += 1;
    }
    false
}

fn holds_parameter(graph: &MidGraph, group: MidValueId) -> (r: bool)
    requires
        is_closed(*graph),
    ensures
        r == is_parameter_group(*graph, group),
{
    let mut v: usize = 0;
    while v < graph.values.len()
        invariant
            v <= graph.values@.len(),
            forall|k: int|
                0 <= k < v && #[trigger] group_of(*graph, k) == group ==> !is_parameter_origin(
                    *graph,
                    graph.values@[k].origin,
                ),
        decreases graph.values@.len() - v,
    {
        let id = graph.values[v].id;
        if has_parameter_origin(graph, graph.values[v].origin)
            && graph.values[id.0 as usize].storage_group == group {
            assert(group_of(*graph, v as int) == group);
            return true;
        }
        v += 1;
    }
    false
}

fn should_rotate(graph: &MidGraph, value: &MidValue) -> (r: bool)
    requires
        is_closed(*graph),
    ensures
        r == is_rotated(*graph, *value),
{
    comes_from_parameter(graph, value.id) || holds_parameter(graph, value.storage_group)
}

fn peak_of(loads: &Vec<u64>, bytes: &Vec<u64>, offset: u16, tile_count: u16) -> (r: u64)
    requires
        loads@.len() == tile_count,
        tile_count > 0,
    ensures
        r == peak(loads@, bytes@, offset, tile_count),
{
    let mut trial: Vec<u64> = copy_all(loads.as_slice());
    let mut i: usize = 0;
    while i < bytes.len()
        invariant
            i <= bytes@.len(),
            trial@.len() == tile_count,
            loads_from(loads@, bytes@, offset, tile_count, 0) == loads_from(
                trial@,
                bytes@,
                offset,
                tile_count,
                i as int,
            ),
        decreases bytes@.len() - i,
    {
        let tile: usize = ((i as u128 + offset as u128) % (tile_count as u128)) as usize;
        let load: u64 = trial[tile].saturating_add(bytes[i]);
        trial.set(tile, load);
        i += 1;
    }
    let mut most: u64 = 0;
    let mut t: usize = 0;
    while t < trial.len()
        invariant
            t <= trial@.len(),
            peak_from(trial@, 0, 0) == peak_from(trial@, t as int, most),
        decreases trial@.len() - t,
    {
        if trial[t] > most {
            most = trial[t];
        }
        t += 1;
    }
    most
}

/// The rotation with the smallest peak load.
pub fn choose_offset(loads: &Vec<u64>, bytes: &Vec<u64>, tile_count: u16) -> (r: u16)
    requires
        loads@.len() == tile_count,
        tile_count > 0,
    ensures
        r == best_offset(loads@, bytes@, tile_count),
        r < tile_count,
{
    let mut best: u16 = 0;
    let mut least: u64 = peak_of(loads, bytes, 0, tile_count);
    let mut offset: u16 = 1;
    while offset < tile_count
        invariant
            1 <= offset <= tile_count,
            best < tile_count,
            least == peak(loads@, bytes@, best, tile_count),
            best_offset(loads@, bytes@, tile_count) == best_offset_from(
                loads@,
                bytes@,
                tile_count,
                offset as int,
                best,
            ),
        decreases tile_count - offset,
    {
        let here: u64 = peak_of(loads, bytes, offset, tile_count);
        if here < least {
            least = here;
            best = offset;
        }
        offset += 1;
    }
    best
}

fn find_offset(offsets: &Vec<(MidValueId, u16)>, group: MidValueId) -> (r: Option<u16>)
    ensures
        r == offset_from(offsets@, group, 0),
{
    let mut i: usize = 0;
    while i < offsets.len()
        invariant
            i <= offsets@.len(),
            offset_from(offsets@, group, 0) == offset_from(offsets@, group, i as int),
        decreases offsets@.len() - i,
    {
        if offsets[i].0 == group {
            return Some(offsets[i].1);
        }
        i += 1;
    }
    None
}

fn new_value_shard(value: &MidValue, tile: u16, extents: &Vec<ShardExtent>) -> (r: LowShard)
    ensures
        r@ == value_shard(*value, tile, extents@),
{
    LowShard {
        id: LowShardId(0),
        tile,
        tensor_type: value.tensor_type.duplicate(),
        extents: copy_all(extents.as_slice()),
        definition: ShardDefinition::Value(value.id),
    }
}

fn bytes_of_shards<M: Target>(target: &M, value: &MidValue, shards: &Vec<ResolvedShard>) -> (r:
    LowLoweringResult<Vec<u64>>)
    ensures
        match r {
            Ok(bytes) => shard_bytes_from(target, *value, deep(shards@), 0, Seq::empty()) == Ok::<
                Seq<u64>,
                LowLoweringError,
            >(bytes@) && bytes@.len() == shards@.len(),
            Err(e) => shard_bytes_from(target, *value, deep(shards@), 0, Seq::empty()) == Err::<
                Seq<u64>,
                LowLoweringError,
            >(e),
        },
{
    broadcast use group_deep;

    let ghost model = deep(shards@);
    let mut bytes: Vec<u64> = Vec::new();
    assert(bytes@ =~= Seq::<u64>::empty());
    let mut i: usize = 0;
    while i < shards.len()
        invariant
            i <= shards@.len(),
            bytes@.len() == i,
            shard_bytes_from(target, *value, model, 0, Seq::empty()) == shard_bytes_from(
                target,
                *value,
                model,
                i as int,
                bytes@,
            ),
        decreases shards@.len() - i,
    {
        assert(model[i as int] == shards@[i as int]@);
        match target.storage_bytes(&value.tensor_type.format, shards[i].extents.as_slice()) {
            Ok(count) => {
                bytes.push(count as u64);
            },
            Err(e) => {
                return Err(LowLoweringError::Storage(e));
            },
        }
        i += 1;
    }
    Ok(bytes)
}

fn zero_loads(tile_count: u16) -> (r: Vec<u64>)
    ensures
        r@ == Seq::new(tile_count as nat, |t: int| 0u64),
{
    let mut loads: Vec<u64> = Vec::new();
    let mut t: u16 = 0;
    while t < tile_count
        invariant
            t <= tile_count,
            loads@.len() == t,
            forall|k: int| 0 <= k < t ==> loads@[k] == 0,
        decreases tile_count - t,
    {
        loads.push(0);
        t += 1;
    }
    assert(loads@ =~= Seq::new(tile_count as nat, |t: int| 0u64));
    loads
}

fn empty_shard_lists(count: usize) -> (r: Vec<ShardList>)
    ensures
        deep(r@) == Seq::new(count as nat, |v: int| Seq::<LowShardId>::empty()),
{
    broadcast use group_deep;

    let mut lists: Vec<ShardList> = Vec::new();
    let mut v: usize = 0;
    while v < count
        invariant
            v <= count,
            lists@.len() == v,
            forall|k: int| 0 <= k < v ==> (#[trigger] lists@[k])@ == Seq::<LowShardId>::empty(),
        decreases count - v,
    {
        let list = ShardList { shards: Vec::new() };
        assert(list@ =~= Seq::<LowShardId>::empty());
        lists.push(list);
        v += 1;
    }
    assert(deep(lists@) =~= Seq::new(count as nat, |v: int| Seq::<LowShardId>::empty()));
    lists
}

/// Rotations as they are handed on.
#[derive(Debug)]
pub struct Rotations {
    pub loads: Vec<u64>,
    pub offsets: Vec<(MidValueId, u16)>,
}

impl View for Rotations {
    type V = Placement;

    open spec fn view(&self) -> Placement {
        Placement { loads: self.loads@, offsets: self.offsets@ }
    }
}

/// `r` leaves the expected schedule and rotations, or is the expected error.
pub open spec fn placed(
    r: LowLoweringResult<()>,
    after: StateModel,
    rotations: Placement,
    expected: Result<(StateModel, Placement), LowLoweringError>,
) -> bool {
    match r {
        Ok(_) => expected == Ok::<(StateModel, Placement), LowLoweringError>((after, rotations)),
        Err(e) => expected == Err::<(StateModel, Placement), LowLoweringError>(e),
    }
}

/// The same shards belong to every value.
pub open spec fn same_values(s: StateModel, t: StateModel) -> bool {
    s.canonical == t.canonical
}

impl LoweringState {
    fn record_shards(&mut self, value: MidValueId, ids: Vec<LowShardId>) -> (r: LowLoweringResult<
        (),
    >)
        ensures
            did(r, final(self)@, record_shards(old(self)@, value, ids@)),
            r is Ok ==> final(self)@.canonical.len() == old(self)@.canonical.len(),
    {
        broadcast use group_deep;

        if value.0 as usize >= self.canonical.len() {
            return Err(LowLoweringError::UnknownValue(value));
        }
        let ghost before = self.canonical@;
        let list = ShardList { shards: ids };
        self.canonical.set(value.0 as usize, list);
        assert(deep(self.canonical@) =~= deep(before).update(value.0 as int, ids@));
        Ok(())
    }

    fn place_shards(&mut self, value: &MidValue, shards: &Vec<ResolvedShard>) -> (r:
        LowLoweringResult<Vec<LowShardId>>)
        ensures
            match r {
                Ok(ids) => place_shards_from(
                    old(self)@,
                    *value,
                    deep(shards@),
                    0,
                    Seq::empty(),
                ) == Ok::<(StateModel, Seq<LowShardId>), LowLoweringError>((final(self)@, ids@)),
                Err(e) => place_shards_from(old(self)@, *value, deep(shards@), 0, Seq::empty())
                    == Err::<(StateModel, Seq<LowShardId>), LowLoweringError>(e),
            },
            r is Ok ==> same_values(old(self)@, final(self)@),
    {
        broadcast use group_deep;

        let ghost start = self@;
        let ghost model = deep(shards@);
        let mut ids: Vec<LowShardId> = Vec::new();
        assert(ids@ =~= Seq::<LowShardId>::empty());
        let mut i: usize = 0;
        while i < shards.len()
            invariant
                i <= shards@.len(),
                same_values(start, self@),
                place_shards_from(start, *value, model, 0, Seq::empty()) == place_shards_from(
                    self@,
                    *value,
                    model,
                    i as int,
                    ids@,
                ),
            decreases shards@.len() - i,
        {
            assert(model[i as int] == shards@[i as int]@);
            let shard = new_value_shard(value, shards[i].tile, &shards[i].extents);
            let id = self.push_shard(shard)?;
            ids.push(id);
            i += 1;
        }
        Ok(ids)
    }

    fn place_rotated_shards(
        &mut self,
        value: &MidValue,
        shards: &Vec<ResolvedShard>,
        bytes: &Vec<u64>,
        offset: u16,
        tile_count: u16,
        loads: &mut Vec<u64>,
    ) -> (r: LowLoweringResult<Vec<LowShardId>>)
        requires
            tile_count > 0,
            bytes@.len() == shards@.len(),
            old(loads)@.len() == tile_count,
        ensures
            match r {
                Ok(ids) => place_rotated_from(
                    old(self)@,
                    *value,
                    deep(shards@),
                    bytes@,
                    offset,
                    tile_count,
                    old(loads)@,
                    0,
                    Seq::empty(),
                ) == Ok::<(StateModel, Seq<u64>, Seq<LowShardId>), LowLoweringError>(
                    (final(self)@, final(loads)@, ids@),
                ),
                Err(e) => place_rotated_from(
                    old(self)@,
                    *value,
                    deep(shards@),
                    bytes@,
                    offset,
                    tile_count,
                    old(loads)@,
                    0,
                    Seq::empty(),
                ) == Err::<(StateModel, Seq<u64>, Seq<LowShardId>), LowLoweringError>(e),
            },
            final(loads)@.len() == tile_count,
            r is Ok ==> same_values(old(self)@, final(self)@),
    {
        broadcast use group_deep;

        let ghost start = self@;
        let ghost first = loads@;
        let ghost model = deep(shards@);
        let mut ids: Vec<LowShardId> = Vec::new();
        assert(ids@ =~= Seq::<LowShardId>::empty());
        let mut i: usize = 0;
        while i < shards.len()
            invariant
                i <= shards@.len(),
                loads@.len() == tile_count,
                same_values(start, self@),
                place_rotated_from(
                    start,
                    *value,
                    model,
                    bytes@,
                    offset,
                    tile_count,
                    first,
                    0,
                    Seq::empty(),
                ) == place_rotated_from(
                    self@,
                    *value,
                    model,
                    bytes@,
                    offset,
                    tile_count,
                    loads@,
                    i as int,
                    ids@,
                ),
            decreases shards@.len() - i,
        {
            assert(model[i as int] == shards@[i as int]@);
            let tile: u32 = (shards[i].tile as u32 + offset as u32) % (tile_count as u32);
            let load: u64 = match loads[tile as usize].checked_add(bytes[i]) {
                Some(load) => load,
                None => {
                    return Err(LowLoweringError::IdOverflow);
                },
            };
            let shard = new_value_shard(value, tile as u16, &shards[i].extents);
            let id = self.push_shard(shard)?;
            loads.set(tile as usize, load);
            ids.push(id);
            i += 1;
        }
        Ok(ids)
    }

    fn place_value<M: Target>(
        &mut self,
        target: &M,
        graph: &MidGraph,
        value: &MidValue,
        tile_count: u16,
        p: &mut Rotations,
    ) -> (r: LowLoweringResult<()>)
        requires
            is_closed(*graph),
            old(p)@.loads.len() == tile_count,
        ensures
            placed(
                r,
                final(self)@,
                final(p)@,
                place_value(target, old(self)@, *graph, *value, tile_count, old(p)@),
            ),
            r is Ok ==> final(p)@.loads.len() == tile_count,
            r is Ok ==> final(self)@.canonical.len() == old(self)@.canonical.len(),
    {
        broadcast use group_deep;

        let declared: u16 = value.tensor_type.format.layout.tiling.tile_count;
        if declared == 0 || declared > tile_count {
            return Err(
                LowLoweringError::TileCountMismatch {
                    value: value.id,
                    declared,
                    scheduled: tile_count,
                },
            );
        }
        let resolved = match target.resolve(
            &value.tensor_type.format.layout,
            value.tensor_type.shape.0.as_slice(),
        ) {
            Ok(resolved) => resolved,
            Err(e) => {
                return Err(LowLoweringError::Layout(e));
            },
        };
        if should_rotate(graph, value) {
            let bytes = bytes_of_shards(target, value, &resolved.shards)?;
            let offset: u16 = match find_offset(&p.offsets, value.storage_group) {
                Some(offset) => offset,
                None => {
                    let offset: u16 = choose_offset(&p.loads, &bytes, tile_count);
                    p.offsets.push((value.storage_group, offset));
                    offset
                },
            };
            let ids = self.place_rotated_shards(
                value,
                &resolved.shards,
                &bytes,
                offset,
                tile_count,
                &mut p.loads,
            )?;
            self.record_shards(value.id, ids)?;
        } else {
            let ids = self.place_shards(value, &resolved.shards)?;
            self.record_shards(value.id, ids)?;
        }
        Ok(())
    }

    /// The schedule with the shards of all values of a graph.
    pub fn new<M: Target>(target: &M, graph: &MidGraph, tile_count: u16) -> (r: LowLoweringResult<
        LoweringState,
    >)
        ensures
            match r {
                Ok(state) => initial_state(target, *graph, tile_count) == Ok::<
                    StateModel,
                    LowLoweringError,
                >(state@),
                Err(e) => initial_state(target, *graph, tile_count) == Err::<
                    StateModel,
                    LowLoweringError,
                >(e),
            },
    {
        broadcast use group_deep;

        match find_unknown(graph) {
            Some(id) => {
                return Err(LowLoweringError::UnknownValue(id));
            },
            None => {},
        }
        let mut state = LoweringState {
            tile_count,
            shards: Vec::new(),
            canonical: empty_shard_lists(graph.values.len()),
            phases: Vec::new(),
            kernel_runs: Vec::new(),
            local_copies: Vec::new(),
            repeat_runs: Vec::new(),
            kernel_metadata: Vec::new(),
            deferred_conversions: Vec::new(),
            deferred_values: Vec::new(),
            tiles: new_work_lists(tile_count),
        };
        let ghost start = empty_state(graph.values@.len(), tile_count);
        proof {
            assert(state@.shards =~= start.shards);
            assert(state@.phases =~= start.phases);
            assert(state@.kernel_runs =~= start.kernel_runs);
            assert(state@.local_copies =~= start.local_copies);
            assert(state@.repeat_runs =~= start.repeat_runs);
            assert(state@.kernel_metadata =~= start.kernel_metadata);
            assert(state@.deferred_conversions =~= start.deferred_conversions);
            assert(state@.deferred_values =~= start.deferred_values);
            assert(state@ == start);
        }
        let mut p = Rotations { loads: zero_loads(tile_count), offsets: Vec::new() };
        assert(p@.offsets =~= Seq::<(MidValueId, u16)>::empty());
        let ghost fresh = p@;
        let mut v: usize = 0;
        while v < graph.values.len()
            invariant
                v <= graph.values@.len(),
                p@.loads.len() == tile_count,
                place_values_from(target, start, *graph, tile_count, 0, fresh)
                    == place_values_from(target, state@, *graph, tile_count, v as int, p@),
            decreases graph.values@.len() - v,
        {
            state.place_value(target, graph, &graph.values[v], tile_count, &mut p)?;
            v += 1;
        }
        Ok(state)
    }
}

} // verus!
