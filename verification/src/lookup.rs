//! Finding shards: by value, by tile, by rectangle, and by what they hold.

use crate::extents::{intersect_extents, intersection};
use crate::low::{LowLoweringError, LowLoweringResult, LowShardId, ShardModel, ShardView, ViewModel};
use crate::mid::MidValueId;
use crate::model::{Model, copy_all, deep, group_deep};
use crate::order::{
    extents_key, groups_insert, key_of_extents, lemma_insert_nonempty, GroupModel, Groups,
};
use crate::state::{shard_of, DeferredModel, DeferredValue, LoweringState, StateModel};
use crate::tensor::{same_extents, ShardExtent};
use vstd::prelude::*;

verus! {

/// The shard is on the tile.
pub open spec fn resides(shards: Seq<ShardModel>, id: LowShardId, tile: u16) -> bool {
    id.0 < shards.len() && shards[id.0 as int].tile == tile
}

/// `r` lists the expected shards, or is the expected error.
pub open spec fn ids_are(
    r: LowLoweringResult<Vec<LowShardId>>,
    expected: Result<Seq<LowShardId>, LowLoweringError>,
) -> bool {
    match r {
        Ok(ids) => expected == Ok::<Seq<LowShardId>, LowLoweringError>(ids@),
        Err(e) => expected == Err::<Seq<LowShardId>, LowLoweringError>(e),
    }
}

/// The canonical shards of a value. A value without shards is unknown.
pub open spec fn value_shards(s: StateModel, value: MidValueId) -> Result<
    Seq<LowShardId>,
    LowLoweringError,
> {
    if value.0 < s.canonical.len() && s.canonical[value.0 as int].len() > 0 {
        Ok(s.canonical[value.0 as int])
    } else {
        Err(LowLoweringError::UnknownValue(value))
    }
}

/// The first of the listed shards, from position `i` on, that is on the tile.
pub open spec fn first_on(
    shards: Seq<ShardModel>,
    ids: Seq<LowShardId>,
    tile: u16,
    i: int,
) -> Option<LowShardId>
    decreases ids.len() - i,
{
    if i >= ids.len() {
        None
    } else if resides(shards, ids[i], tile) {
        Some(ids[i])
    } else {
        first_on(shards, ids, tile, i + 1)
    }
}

/// A listed shard, on the tile if there is one there, and else the first.
pub open spec fn prefer_local(
    shards: Seq<ShardModel>,
    ids: Seq<LowShardId>,
    tile: u16,
) -> Option<LowShardId> {
    match first_on(shards, ids, tile, 0) {
        Some(id) => Some(id),
        None => if ids.len() > 0 {
            Some(ids[0])
        } else {
            None
        },
    }
}

/// The shard of a value on a tile. Values that have a shard on every tile keep
/// them in tile order, so the shard at the tile's position goes first.
pub open spec fn local_shard(s: StateModel, value: MidValueId, tile: u16) -> Result<
    LowShardId,
    LowLoweringError,
> {
    match value_shards(s, value) {
        Err(e) => Err(e),
        Ok(ids) => if tile < ids.len() && resides(s.shards, ids[tile as int], tile) {
            Ok(ids[tile as int])
        } else {
            match first_on(s.shards, ids, tile, 0) {
                Some(id) => Ok(id),
                None => Err(LowLoweringError::UnknownValue(value)),
            }
        },
    }
}

/// The first shard of a value on a tile, if there is one.
pub open spec fn find_local_shard(s: StateModel, value: MidValueId, tile: u16) -> Result<
    Option<LowShardId>,
    LowLoweringError,
> {
    match value_shards(s, value) {
        Err(e) => Err(e),
        Ok(ids) => Ok(first_on(s.shards, ids, tile, 0)),
    }
}

/// `done` followed by the listed shards, from position `i` on, that hold
/// exactly the rectangle.
pub open spec fn same_rectangle_from(
    shards: Seq<ShardModel>,
    ids: Seq<LowShardId>,
    extents: Seq<ShardExtent>,
    i: int,
    done: Seq<LowShardId>,
) -> Seq<LowShardId>
    decreases ids.len() - i,
{
    if i >= ids.len() {
        done
    } else if ids[i].0 < shards.len() && shards[ids[i].0 as int].extents == extents {
        same_rectangle_from(shards, ids, extents, i + 1, done.push(ids[i]))
    } else {
        same_rectangle_from(shards, ids, extents, i + 1, done)
    }
}

/// The shard of a value that holds the same rectangle as `target`, on the same
/// tile if possible.
pub open spec fn corresponding_shard(s: StateModel, value: MidValueId, target: LowShardId) -> Result<
    LowShardId,
    LowLoweringError,
> {
    match shard_of(s.shards, target) {
        Err(e) => Err(e),
        Ok(shard) => match value_shards(s, value) {
            Err(e) => Err(e),
            Ok(ids) => match prefer_local(
                s.shards,
                same_rectangle_from(s.shards, ids, shard.extents, 0, Seq::empty()),
                shard.tile,
            ) {
                Some(id) => Ok(id),
                None => Err(LowLoweringError::UnknownValue(value)),
            },
        },
    }
}

/// The range holds `start..end`.
pub open spec fn holds_range(extent: ShardExtent, start: u32, end: u32) -> bool {
    extent.start <= start && extent.physical_end >= end
}

/// The shard holds a block of a matrix: columns on one axis, inner elements on
/// the other.
pub open spec fn holds_block(
    shards: Seq<ShardModel>,
    id: LowShardId,
    column_axis: int,
    inner_axis: int,
    columns: (u32, u32),
    inner: (u32, u32),
) -> bool {
    id.0 < shards.len() && 0 <= column_axis < shards[id.0 as int].extents.len() && 0 <= inner_axis
        < shards[id.0 as int].extents.len() && holds_range(
        shards[id.0 as int].extents[column_axis],
        columns.0,
        columns.1,
    ) && holds_range(shards[id.0 as int].extents[inner_axis], inner.0, inner.1)
}

/// The shard holds a block of its last two axes.
pub open spec fn holds_right_block(
    shards: Seq<ShardModel>,
    id: LowShardId,
    columns: (u32, u32),
    inner: (u32, u32),
) -> bool {
    holds_block(
        shards,
        id,
        shards[id.0 as int].extents.len() - 1,
        shards[id.0 as int].extents.len() - 2,
        columns,
        inner,
    )
}

/// `done` followed by the listed shards from `i` on that hold the block.
pub open spec fn right_shards_from(
    shards: Seq<ShardModel>,
    ids: Seq<LowShardId>,
    columns: (u32, u32),
    inner: (u32, u32),
    i: int,
    done: Seq<LowShardId>,
) -> Seq<LowShardId>
    decreases ids.len() - i,
{
    if i >= ids.len() {
        done
    } else if holds_right_block(shards, ids[i], columns, inner) {
        right_shards_from(shards, ids, columns, inner, i + 1, done.push(ids[i]))
    } else {
        right_shards_from(shards, ids, columns, inner, i + 1, done)
    }
}

/// The first listed shard, from `i` on, that holds the block.
pub open spec fn first_block_from(
    shards: Seq<ShardModel>,
    ids: Seq<LowShardId>,
    column_axis: int,
    inner_axis: int,
    columns: (u32, u32),
    inner: (u32, u32),
    i: int,
) -> Option<LowShardId>
    decreases ids.len() - i,
{
    if i >= ids.len() {
        None
    } else if holds_block(shards, ids[i], column_axis, inner_axis, columns, inner) {
        Some(ids[i])
    } else {
        first_block_from(shards, ids, column_axis, inner_axis, columns, inner, i + 1)
    }
}

// ---------------------------------------------------------------- intersections

/// The parts of the first `count` source shards that lie in `target`, filed by
/// rectangle.
pub open spec fn filed_parts(
    shards: Seq<ShardModel>,
    sources: Seq<LowShardId>,
    target: Seq<ShardExtent>,
    count: int,
) -> Seq<GroupModel<ViewModel>>
    decreases count,
{
    if count <= 0 {
        Seq::empty()
    } else {
        let before = filed_parts(shards, sources, target, count - 1);
        let source = sources[count - 1];
        if source.0 < shards.len() {
            match intersection(shards[source.0 as int].extents, target) {
                Some(extents) => groups_insert(
                    before,
                    extents_key(extents),
                    ViewModel { shard: source, extents },
                ),
                None => before,
            }
        } else {
            before
        }
    }
}

/// The first view, from position `i` on, whose shard is on the tile.
pub open spec fn first_view_on(
    shards: Seq<ShardModel>,
    views: Seq<ViewModel>,
    tile: u16,
    i: int,
) -> Option<ViewModel>
    decreases views.len() - i,
{
    if i >= views.len() {
        None
    } else if resides(shards, views[i].shard, tile) {
        Some(views[i])
    } else {
        first_view_on(shards, views, tile, i + 1)
    }
}

/// One of the views that hold the same rectangle: on the tile if there is one
/// there, and else the first.
pub open spec fn chosen_view(
    shards: Seq<ShardModel>,
    views: Seq<ViewModel>,
    tile: u16,
) -> ViewModel {
    match first_view_on(shards, views, tile, 0) {
        Some(view) => view,
        None => views[0],
    }
}

/// The parts of source shards that make up `target`, in rectangle order, each
/// rectangle once and from the tile where possible.
pub open spec fn intersecting(
    shards: Seq<ShardModel>,
    sources: Seq<LowShardId>,
    target: Seq<ShardExtent>,
    tile: u16,
) -> Seq<ViewModel> {
    let filed = filed_parts(shards, sources, target, sources.len() as int);
    Seq::new(filed.len(), |i: int| chosen_view(shards, filed[i].items, tile))
}

/// A view holds exactly what one of the sources and `target` have in common.
pub open spec fn is_part(
    shards: Seq<ShardModel>,
    sources: Seq<LowShardId>,
    target: Seq<ShardExtent>,
    view: ViewModel,
) -> bool {
    &&& sources.contains(view.shard)
    &&& view.shard.0 < shards.len()
    &&& intersection(shards[view.shard.0 as int].extents, target) == Some(view.extents)
}

/// Only parts of sources are filed, and no group is empty.
pub proof fn lemma_filed_parts(
    shards: Seq<ShardModel>,
    sources: Seq<LowShardId>,
    target: Seq<ShardExtent>,
    count: int,
)
    requires
        0 <= count <= sources.len(),
    ensures
        ({
            let filed = filed_parts(shards, sources, target, count);
            forall|g: int|
                #![trigger filed[g]]
                0 <= g < filed.len() ==> filed[g].items.len() > 0 && forall|i: int|
                    0 <= i < filed[g].items.len() ==> is_part(
                        shards,
                        sources,
                        target,
                        #[trigger] filed[g].items[i],
                    )
        }),
    decreases count,
{
    if count > 0 {
        lemma_filed_parts(shards, sources, target, count - 1);
        let before = filed_parts(shards, sources, target, count - 1);
        let after = filed_parts(shards, sources, target, count);
        let source = sources[count - 1];
        if source.0 < shards.len() && intersection(
            shards[source.0 as int].extents,
            target,
        ) is Some {
            let extents = intersection(shards[source.0 as int].extents, target)->Some_0;
            let view = ViewModel { shard: source, extents };
            let key = extents_key(extents);
            assert(is_part(shards, sources, target, view));
            crate::order::lemma_slot_bounds(before, key);
            let slot = crate::order::slot_from(before, key, 0);
            let joined = slot < before.len() && before[slot].key == key;
            assert forall|g: int| #![trigger after[g]] 0 <= g < after.len() implies after[
                g
            ].items.len() > 0 && forall|i: int|
                0 <= i < after[g].items.len() ==> is_part(
                    shards,
                    sources,
                    target,
                    #[trigger] after[g].items[i],
                ) by {
                if g != slot {
                    let origin = if joined || g < slot {
                        g
                    } else {
                        g - 1
                    };
                    assert(after[g] == before[origin]);
                } else if joined {
                    assert(after[g].items == before[slot].items.push(view));
                    assert forall|i: int| 0 <= i < after[g].items.len() implies is_part(
                        shards,
                        sources,
                        target,
                        #[trigger] after[g].items[i],
                    ) by {
                        if i < before[slot].items.len() {
                            assert(after[g].items[i] == before[slot].items[i]);
                        }
                    }
                } else {
                    assert(after[g].items == seq![view]);
                }
            }
        }
    }
}

proof fn lemma_first_view_on(
    shards: Seq<ShardModel>,
    views: Seq<ViewModel>,
    tile: u16,
    i: int,
)
    requires
        0 <= i,
    ensures
        first_view_on(shards, views, tile, i) matches Some(view) ==> views.contains(view)
            && resides(shards, view.shard, tile),
    decreases views.len() - i,
{
    if i < views.len() {
        if resides(shards, views[i].shard, tile) {
            assert(views[i] == first_view_on(shards, views, tile, i)->Some_0);
        } else {
            lemma_first_view_on(shards, views, tile, i + 1);
        }
    }
}

/// What makes up `target` are parts of the sources that lie in it.
pub proof fn lemma_intersecting_are_parts(
    shards: Seq<ShardModel>,
    sources: Seq<LowShardId>,
    target: Seq<ShardExtent>,
    tile: u16,
)
    ensures
        forall|k: int|
            0 <= k < intersecting(shards, sources, target, tile).len() ==> is_part(
                shards,
                sources,
                target,
                #[trigger] intersecting(shards, sources, target, tile)[k],
            ),
{
    let filed = filed_parts(shards, sources, target, sources.len() as int);
    let parts = intersecting(shards, sources, target, tile);
    lemma_filed_parts(shards, sources, target, sources.len() as int);
    assert forall|k: int| 0 <= k < parts.len() implies is_part(
        shards,
        sources,
        target,
        #[trigger] parts[k],
    ) by {
        let items = filed[k].items;
        lemma_first_view_on(shards, items, tile, 0);
        assert(items.len() > 0);
        assert(items.contains(parts[k])) by {
            if first_view_on(shards, items, tile, 0) is None {
                assert(items[0] == parts[k]);
            }
        }
        let i = choose|i: int| 0 <= i < items.len() && items[i] == parts[k];
        assert(is_part(shards, sources, target, filed[k].items[i]));
    }
}

// ---------------------------------------------------------------- deferral

/// The source of the newest deferred conversion to `value` among the first
/// `count`.
pub open spec fn conversion_source(
    conversions: Seq<(MidValueId, MidValueId)>,
    value: MidValueId,
    count: int,
) -> Option<MidValueId>
    decreases count,
{
    if count <= 0 {
        None
    } else if conversions[count - 1].0 == value {
        Some(conversions[count - 1].1)
    } else {
        conversion_source(conversions, value, count - 1)
    }
}

/// The conversion to `value` is left to its consumers.
pub open spec fn converted_from(s: StateModel, value: MidValueId) -> Option<MidValueId> {
    conversion_source(s.deferred_conversions, value, s.deferred_conversions.len() as int)
}

/// The position of the newest deferred view of `value` among the first `count`.
pub open spec fn deferred_position(
    values: Seq<DeferredModel>,
    value: MidValueId,
    count: int,
) -> Option<int>
    decreases count,
{
    if count <= 0 {
        None
    } else if values[count - 1].value == value {
        Some(count - 1)
    } else {
        deferred_position(values, value, count - 1)
    }
}

/// The deferred view of `value`.
pub open spec fn deferred_of(s: StateModel, value: MidValueId) -> Option<DeferredModel> {
    match deferred_position(s.deferred_values, value, s.deferred_values.len() as int) {
        Some(i) => Some(s.deferred_values[i]),
        None => None,
    }
}

/// The deferred view that `value` reads after at most `fuel` conversions.
pub open spec fn root_of(s: StateModel, value: MidValueId, fuel: nat) -> Option<MidValueId>
    decreases fuel,
{
    if deferred_of(s, value) is Some {
        Some(value)
    } else {
        match converted_from(s, value) {
            None => None,
            Some(source) => if fuel == 0 {
                None
            } else {
                root_of(s, source, (fuel - 1) as nat)
            },
        }
    }
}

/// The deferred view that `value` reads, through deferred conversions.
pub open spec fn deferred_root(s: StateModel, value: MidValueId) -> Option<MidValueId> {
    root_of(s, value, s.deferred_conversions.len() + 1)
}

impl LoweringState {
    pub fn resides(&self, id: LowShardId, tile: u16) -> (r: bool)
        ensures
            r == resides(self@.shards, id, tile),
    {
        broadcast use group_deep;

        (id.0 as usize) < self.shards.len() && self.shards[id.0 as usize].tile == tile
    }

    pub fn value_shards(&self, value: MidValueId) -> (r: LowLoweringResult<Vec<LowShardId>>)
        ensures
            ids_are(r, value_shards(self@, value)),
            r matches Ok(ids) ==> ids@.len() > 0,
    {
        broadcast use group_deep;

        if (value.0 as usize) < self.canonical.len() && self.canonical[value.0 as usize].shards.len()
            > 0 {
            Ok(copy_all(self.canonical[value.0 as usize].shards.as_slice()))
        } else {
            Err(LowLoweringError::UnknownValue(value))
        }
    }

    pub fn first_on(&self, ids: &Vec<LowShardId>, tile: u16) -> (r: Option<LowShardId>)
        ensures
            r == first_on(self@.shards, ids@, tile, 0),
    {
        let mut i: usize = 0;
        while i < ids.len()
            invariant
                i <= ids@.len(),
                first_on(self@.shards, ids@, tile, 0) == first_on(
                    self@.shards,
                    ids@,
                    tile,
                    i as int,
                ),
            decreases ids@.len() - i,
        {
            if self.resides(ids[i], tile) {
                return Some(ids[i]);
            }
            i += 1;
        }
        None
    }

    pub fn prefer_local_shard(&self, ids: &Vec<LowShardId>, tile: u16) -> (r: Option<LowShardId>)
        ensures
            r == prefer_local(self@.shards, ids@, tile),
    {
        match self.first_on(ids, tile) {
            Some(id) => Some(id),
            None => if ids.len() > 0 {
                Some(ids[0])
            } else {
                None
            },
        }
    }

    pub fn local_shard(&self, value: MidValueId, tile: u16) -> (r: LowLoweringResult<LowShardId>)
        ensures
            r == local_shard(self@, value, tile),
    {
        let ids = self.value_shards(value)?;
        if (tile as usize) < ids.len() && self.resides(ids[tile as usize], tile) {
            return Ok(ids[tile as usize]);
        }
        match self.first_on(&ids, tile) {
            Some(id) => Ok(id),
            None => Err(LowLoweringError::UnknownValue(value)),
        }
    }

    pub fn find_local_shard(&self, value: MidValueId, tile: u16) -> (r: LowLoweringResult<
        Option<LowShardId>,
    >)
        ensures
            r == find_local_shard(self@, value, tile),
    {
        match self.value_shards(value) {
            Ok(ids) => Ok(self.first_on(&ids, tile)),
            Err(e) => Err(e),
        }
    }

    pub fn corresponding_shard(&self, value: MidValueId, target: LowShardId) -> (r:
        LowLoweringResult<LowShardId>)
        ensures
            r == corresponding_shard(self@, value, target),
    {
        broadcast use group_deep;

        let shard = self.shard(target)?;
        let ids = self.value_shards(value)?;
        let mut candidates: Vec<LowShardId> = Vec::new();
        let mut i: usize = 0;
        while i < ids.len()
            invariant
                i <= ids@.len(),
                same_rectangle_from(self@.shards, ids@, shard@.extents, 0, Seq::empty())
                    == same_rectangle_from(
                    self@.shards,
                    ids@,
                    shard@.extents,
                    i as int,
                    candidates@,
                ),
            decreases ids@.len() - i,
        {
            let id = ids[i];
            if (id.0 as usize) < self.shards.len() && same_extents(
                self.shards[id.0 as usize].extents.as_slice(),
                shard.extents.as_slice(),
            ) {
                candidates.push(id);
            }
            i += 1;
        }
        match self.prefer_local_shard(&candidates, shard.tile) {
            Some(id) => Ok(id),
            None => Err(LowLoweringError::UnknownValue(value)),
        }
    }

    fn holds_block(
        &self,
        id: LowShardId,
        column_axis: usize,
        inner_axis: usize,
        columns: (u32, u32),
        inner: (u32, u32),
    ) -> (r: bool)
        ensures
            r == holds_block(
                self@.shards,
                id,
                column_axis as int,
                inner_axis as int,
                columns,
                inner,
            ),
    {
        broadcast use group_deep;

        if (id.0 as usize) >= self.shards.len() {
            return false;
        }
        let shard = &self.shards[id.0 as usize];
        if column_axis >= shard.extents.len() || inner_axis >= shard.extents.len() {
            return false;
        }
        let column: ShardExtent = shard.extents[column_axis];
        let row: ShardExtent = shard.extents[inner_axis];
        column.start <= columns.0 && column.physical_end >= columns.1 && row.start <= inner.0
            && row.physical_end >= inner.1
    }

    pub fn right_shards_for_block(
        &self,
        ids: &Vec<LowShardId>,
        columns: (u32, u32),
        inner: (u32, u32),
    ) -> (r: Vec<LowShardId>)
        ensures
            r@ == right_shards_from(self@.shards, ids@, columns, inner, 0, Seq::empty()),
    {
        broadcast use group_deep;

        let mut candidates: Vec<LowShardId> = Vec::new();
        let mut i: usize = 0;
        while i < ids.len()
            invariant
                i <= ids@.len(),
                right_shards_from(self@.shards, ids@, columns, inner, 0, Seq::empty())
                    == right_shards_from(
                    self@.shards,
                    ids@,
                    columns,
                    inner,
                    i as int,
                    candidates@,
                ),
            decreases ids@.len() - i,
        {
            let id = ids[i];
            let mut held = false;
            if (id.0 as usize) < self.shards.len() {
                let rank = self.shards[id.0 as usize].extents.len();
                assert(rank == self@.shards[id.0 as int].extents.len());
                if rank >= 2 {
                    held = self.holds_block(id, rank - 1, rank - 2, columns, inner);
                }
            }
            assert(held == holds_right_block(self@.shards, id, columns, inner));
            if held {
                candidates.push(id);
            }
            i += 1;
        }
        candidates
    }

    pub fn first_matrix_shard_for_block(
        &self,
        ids: &Vec<LowShardId>,
        column_axis: usize,
        inner_axis: usize,
        columns: (u32, u32),
        inner: (u32, u32),
    ) -> (r: Option<LowShardId>)
        ensures
            r == first_block_from(
                self@.shards,
                ids@,
                column_axis as int,
                inner_axis as int,
                columns,
                inner,
                0,
            ),
    {
        let mut i: usize = 0;
        while i < ids.len()
            invariant
                i <= ids@.len(),
                first_block_from(
                    self@.shards,
                    ids@,
                    column_axis as int,
                    inner_axis as int,
                    columns,
                    inner,
                    0,
                ) == first_block_from(
                    self@.shards,
                    ids@,
                    column_axis as int,
                    inner_axis as int,
                    columns,
                    inner,
                    i as int,
                ),
            decreases ids@.len() - i,
        {
            if self.holds_block(ids[i], column_axis, inner_axis, columns, inner) {
                return Some(ids[i]);
            }
            i += 1;
        }
        None
    }

    /// Files the parts of source shards that lie in `target` by rectangle.
    pub fn file_parts(&self, sources: &Vec<LowShardId>, target: &[ShardExtent]) -> (r: Groups<
        ShardView,
    >)
        ensures
            r@ == filed_parts(self@.shards, sources@, target@, sources@.len() as int),
            forall|g: int| 0 <= g < r@.len() ==> (#[trigger] r@[g]).items.len() > 0,
    {
        broadcast use group_deep;

        let mut filed: Groups<ShardView> = Groups::new();
        let mut i: usize = 0;
        while i < sources.len()
            invariant
                i <= sources@.len(),
                filed@ == filed_parts(self@.shards, sources@, target@, i as int),
                forall|g: int| 0 <= g < filed@.len() ==> (#[trigger] filed@[g]).items.len() > 0,
            decreases sources@.len() - i,
        {
            let source = sources[i];
            if (source.0 as usize) < self.shards.len() {
                let shard = &self.shards[source.0 as usize];
                assert(shard@ == self@.shards[source.0 as int]);
                match intersect_extents(shard.extents.as_slice(), target) {
                    Some(extents) => {
                        let key = key_of_extents(extents.as_slice());
                        let view = ShardView { shard: source, extents };
                        proof {
                            lemma_insert_nonempty(filed@, key@, view@);
                        }
                        filed.insert(key, view);
                    },
                    None => {},
                }
            }
            i += 1;
        }
        filed
    }

    /// The parts of source shards that make up `target`.
    pub fn intersecting_shard_set(
        &self,
        sources: &Vec<LowShardId>,
        target: &[ShardExtent],
        tile: u16,
    ) -> (r: Vec<ShardView>)
        ensures
            deep(r@) == intersecting(self@.shards, sources@, target@, tile),
    {
        broadcast use group_deep;

        let filed = self.file_parts(sources, target);
        let ghost model = filed@;
        let mut r: Vec<ShardView> = Vec::new();
        let mut g: usize = 0;
        while g < filed.entries.len()
            invariant
                g <= filed.entries@.len(),
                filed@ == model,
                r@.len() == g,
                forall|k: int|
                    0 <= k < g ==> (#[trigger] r@[k])@ == chosen_view(
                        self@.shards,
                        model[k].items,
                        tile,
                    ),
            decreases filed.entries@.len() - g,
        {
            let items = &filed.entries[g].items;
            assert(model[g as int] == filed.entries@[g as int]@);
            assert(model[g as int].items.len() > 0);
            let ghost views = model[g as int].items;
            let mut chosen: usize = 0;
            let mut local = false;
            let mut j: usize = 0;
            while j < items.len() && !local
                invariant
                    j <= items@.len(),
                    chosen < items@.len(),
                    views == deep(items@),
                    !local ==> chosen == 0 && first_view_on(self@.shards, views, tile, 0)
                        == first_view_on(self@.shards, views, tile, j as int),
                    local ==> first_view_on(self@.shards, views, tile, 0) == Some(
                        views[chosen as int],
                    ),
                decreases items@.len() - j,
            {
                if self.resides(items[j].shard, tile) {
                    chosen = j;
                    local = true;
                }
                j += 1;
            }
            r.push(items[chosen].duplicate());
            g += 1;
        }
        assert(deep(r@) =~= intersecting(self@.shards, sources@, target@, tile));
        r
    }

    pub fn converted_from(&self, value: MidValueId) -> (r: Option<MidValueId>)
        ensures
            r == converted_from(self@, value),
    {
        let mut i: usize = self.deferred_conversions.len();
        while i > 0
            invariant
                i <= self.deferred_conversions@.len(),
                converted_from(self@, value) == conversion_source(
                    self.deferred_conversions@,
                    value,
                    i as int,
                ),
            decreases i,
        {
            let (result, source) = self.deferred_conversions[i - 1];
            if result == value {
                return Some(source);
            }
            i -= 1;
        }
        None
    }

    pub fn deferred_of(&self, value: MidValueId) -> (r: Option<&DeferredValue>)
        ensures
            match r {
                Some(deferred) => deferred_of(self@, value) == Some(deferred@),
                None => deferred_of(self@, value) is None,
            },
    {
        broadcast use group_deep;

        let mut i: usize = self.deferred_values.len();
        while i > 0
            invariant
                i <= self.deferred_values@.len(),
                deferred_position(
                    self@.deferred_values,
                    value,
                    self@.deferred_values.len() as int,
                ) == deferred_position(self@.deferred_values, value, i as int),
            decreases i,
        {
            assert(self@.deferred_values[i - 1] == self.deferred_values@[i - 1]@);
            if self.deferred_values[i - 1].value == value {
                return Some(&self.deferred_values[i - 1]);
            }
            i -= 1;
        }
        None
    }

    pub fn deferred_root(&self, value: MidValueId) -> (r: Option<MidValueId>)
        ensures
            r == deferred_root(self@, value),
    {
        let start = value;
        let mut value = value;
        let mut hops: usize = 0;
        let limit: usize = self.deferred_conversions.len();
        loop
            invariant
                hops <= limit,
                deferred_root(self@, start) == root_of(self@, value, (limit + 1 - hops) as nat),
            decreases limit - hops,
        {
            match self.deferred_of(value) {
                Some(_) => {
                    return Some(value);
                },
                None => {},
            }
            match self.converted_from(value) {
                None => {
                    return None;
                },
                Some(source) => {
                    value = source;
                },
            }
            if hops == limit {
                // The last conversion that may be followed was just followed.
                proof {
                    reveal_with_fuel(root_of, 3);
                }
                return match self.deferred_of(value) {
                    Some(_) => Some(value),
                    None => None,
                };
            }
            hops += 1;
        }
    }

    pub fn has_deferred_value(&self, value: MidValueId) -> (r: bool)
        ensures
            r == deferred_root(self@, value) is Some,
    {
        self.deferred_root(value).is_some()
    }
}

} // verus!
