//! What retilings carry: every element that an output asks for, each to its
//! own place.

use crate::conversion::{last_view_on, part_retiling_from, retile_source, retiling_from};
use crate::extents::{covers, intersection, lemma_intersection_covers_common_elements};
use crate::lookup::{chosen_view, filed_parts, first_view_on, intersecting, is_part, resides};
use crate::low::{LowShardId, ShardModel, ViewModel};
use crate::order::{
    extents_key, groups_insert, lemma_extents_key_injective, lemma_slot_bounds, slot_from,
    GroupModel,
};
use crate::state::shard_of;
use crate::tensor::ShardExtent;
use vstd::prelude::*;

verus! {

/// A group is filed under `key`.
pub open spec fn has_group<V>(groups: Seq<GroupModel<V>>, key: Seq<u32>) -> bool {
    exists|g: int| 0 <= g < groups.len() && (#[trigger] groups[g]).key == key
}

/// Every group holds views of one rectangle, and is filed under it.
pub open spec fn filed_by_rectangle(groups: Seq<GroupModel<ViewModel>>) -> bool {
    forall|g: int, i: int|
        0 <= g < groups.len() && 0 <= i < groups[g].items.len() ==> groups[g].key == extents_key(
            (#[trigger] groups[g].items[i]).extents,
        )
}

/// No group is empty.
pub open spec fn groups_filled<V>(groups: Seq<GroupModel<V>>) -> bool {
    forall|g: int| 0 <= g < groups.len() ==> (#[trigger] groups[g]).items.len() > 0
}

proof fn lemma_insert_keeps_groups<V>(groups: Seq<GroupModel<V>>, key: Seq<u32>, item: V)
    ensures
        has_group(groups_insert(groups, key, item), key),
        forall|other: Seq<u32>|
            has_group(groups, other) ==> #[trigger] has_group(
                groups_insert(groups, key, item),
                other,
            ),
{
    let after = groups_insert(groups, key, item);
    let slot = slot_from(groups, key, 0);
    lemma_slot_bounds(groups, key);
    assert(after[slot].key == key);
    assert forall|other: Seq<u32>| has_group(groups, other) implies #[trigger] has_group(
        after,
        other,
    ) by {
        let g = choose|g: int| 0 <= g < groups.len() && (#[trigger] groups[g]).key == other;
        if slot < groups.len() && groups[slot].key == key {
            assert(after[g].key == other);
        } else if g < slot {
            assert(after[g] == groups[g]);
        } else {
            assert(after[g + 1] == groups[g]);
        }
    }
}

proof fn lemma_insert_by_rectangle(groups: Seq<GroupModel<ViewModel>>, view: ViewModel)
    requires
        filed_by_rectangle(groups),
        groups_filled(groups),
    ensures
        filed_by_rectangle(groups_insert(groups, extents_key(view.extents), view)),
        groups_filled(groups_insert(groups, extents_key(view.extents), view)),
{
    let key = extents_key(view.extents);
    let after = groups_insert(groups, key, view);
    let slot = slot_from(groups, key, 0);
    lemma_slot_bounds(groups, key);
    let joined = slot < groups.len() && groups[slot].key == key;
    assert forall|g: int| 0 <= g < after.len() implies (#[trigger] after[g]).items.len() > 0 by {
        if g != slot {
            assert(after[g] == groups[if joined || g < slot {
                g
            } else {
                g - 1
            }]);
        }
    }
    assert forall|g: int, i: int|
        0 <= g < after.len() && 0 <= i < after[g].items.len() implies after[g].key == extents_key(
        (#[trigger] after[g].items[i]).extents,
    ) by {
        if g != slot {
            let origin = if joined || g < slot {
                g
            } else {
                g - 1
            };
            assert(after[g] == groups[origin]);
            assert(groups[origin].items[i] == after[g].items[i]);
        } else if joined && i < groups[slot].items.len() {
            assert(after[g].items[i] == groups[slot].items[i]);
        } else {
            assert(after[g].items[i] == view);
        }
    }
}

/// Every part of a source is filed under its rectangle.
proof fn lemma_all_parts_filed(
    shards: Seq<ShardModel>,
    sources: Seq<LowShardId>,
    target: Seq<ShardExtent>,
    count: int,
)
    requires
        0 <= count <= sources.len(),
    ensures
        filed_by_rectangle(filed_parts(shards, sources, target, count)),
        groups_filled(filed_parts(shards, sources, target, count)),
        forall|j: int|
            0 <= j < count && (#[trigger] sources[j]).0 < shards.len() ==> (match intersection(
                shards[sources[j].0 as int].extents,
                target,
            ) {
                Some(extents) => has_group(
                    filed_parts(shards, sources, target, count),
                    extents_key(extents),
                ),
                None => true,
            }),
    decreases count,
{
    if count > 0 {
        lemma_all_parts_filed(shards, sources, target, count - 1);
        let before = filed_parts(shards, sources, target, count - 1);
        let source = sources[count - 1];
        if source.0 < shards.len() {
            if let Some(extents) = intersection(shards[source.0 as int].extents, target) {
                let view = ViewModel { shard: source, extents };
                lemma_insert_keeps_groups(before, extents_key(extents), view);
                lemma_insert_by_rectangle(before, view);
            }
        }
    }
}

proof fn lemma_first_view_is_listed(
    shards: Seq<ShardModel>,
    views: Seq<ViewModel>,
    tile: u16,
    i: int,
)
    requires
        0 <= i,
    ensures
        first_view_on(shards, views, tile, i) matches Some(view) ==> exists|k: int|
            0 <= k < views.len() && #[trigger] views[k] == view,
    decreases views.len() - i,
{
    if i < views.len() {
        if resides(shards, views[i].shard, tile) {
            assert(views[i] == first_view_on(shards, views, tile, i)->Some_0);
        } else {
            lemma_first_view_is_listed(shards, views, tile, i + 1);
        }
    }
}

proof fn lemma_last_view_is_listed(
    shards: Seq<ShardModel>,
    views: Seq<ViewModel>,
    tile: u16,
    i: int,
)
    requires
        i <= views.len(),
    ensures
        last_view_on(shards, views, tile, i) matches Some(view) ==> exists|k: int|
            0 <= k < views.len() && #[trigger] views[k] == view,
    decreases i,
{
    if i > 0 {
        if resides(shards, views[i - 1].shard, tile) {
            assert(views[i - 1] == last_view_on(shards, views, tile, i)->Some_0);
        } else {
            lemma_last_view_is_listed(shards, views, tile, i - 1);
        }
    }
}

/// The group that holds what a source and a rectangle have in common.
proof fn lemma_group_of_element(
    shards: Seq<ShardModel>,
    sources: Seq<LowShardId>,
    target: Seq<ShardExtent>,
    j: int,
    element: Seq<int>,
) -> (g: int)
    requires
        0 <= j < sources.len(),
        sources[j].0 < shards.len(),
        covers(shards[sources[j].0 as int].extents, element),
        covers(target, element),
    ensures
        ({
            let filed = filed_parts(shards, sources, target, sources.len() as int);
            &&& 0 <= g < filed.len()
            &&& filed[g].items.len() > 0
            &&& forall|i: int|
                0 <= i < filed[g].items.len() ==> covers(
                    (#[trigger] filed[g].items[i]).extents,
                    element,
                )
        }),
{
    let filed = filed_parts(shards, sources, target, sources.len() as int);
    let held = shards[sources[j].0 as int].extents;
    lemma_all_parts_filed(shards, sources, target, sources.len() as int);
    lemma_intersection_covers_common_elements(held, target, element);
    let common = intersection(held, target)->Some_0;
    assert(has_group(filed, extents_key(common)));
    let g = choose|g: int|
        0 <= g < filed.len() && (#[trigger] filed[g]).key == extents_key(common);
    assert forall|i: int| 0 <= i < filed[g].items.len() implies covers(
        (#[trigger] filed[g].items[i]).extents,
        element,
    ) by {
        lemma_extents_key_injective(filed[g].items[i].extents, common);
    }
    g
}

/// What is found for a rectangle holds every element of it that a source holds.
pub proof fn lemma_intersecting_cover(
    shards: Seq<ShardModel>,
    sources: Seq<LowShardId>,
    target: Seq<ShardExtent>,
    tile: u16,
    j: int,
    element: Seq<int>,
)
    requires
        0 <= j < sources.len(),
        sources[j].0 < shards.len(),
        covers(shards[sources[j].0 as int].extents, element),
        covers(target, element),
    ensures
        exists|k: int|
            0 <= k < intersecting(shards, sources, target, tile).len() && covers(
                (#[trigger] intersecting(shards, sources, target, tile)[k]).extents,
                element,
            ),
{
    let filed = filed_parts(shards, sources, target, sources.len() as int);
    let parts = intersecting(shards, sources, target, tile);
    let g = lemma_group_of_element(shards, sources, target, j, element);
    let items = filed[g].items;
    lemma_first_view_is_listed(shards, items, tile, 0);
    assert(parts[g] == chosen_view(shards, items, tile));
    assert(covers(filed[g].items[0].extents, element));
    assert(covers(parts[g].extents, element)) by {
        if let Some(view) = first_view_on(shards, items, tile, 0) {
            let k = choose|k: int| 0 <= k < items.len() && #[trigger] items[k] == view;
            assert(covers(filed[g].items[k].extents, element));
        }
    }
}

/// A mapping that carries elements of a source to the same elements of an output.
pub open spec fn carries_in_place(
    shards: Seq<ShardModel>,
    sources: Seq<LowShardId>,
    outputs: Seq<LowShardId>,
    mapping: (ViewModel, ViewModel),
) -> bool {
    &&& outputs.contains(mapping.1.shard)
    &&& mapping.1.shard.0 < shards.len()
    &&& mapping.0.extents == mapping.1.extents
    &&& is_part(shards, sources, shards[mapping.1.shard.0 as int].extents, mapping.0)
}

/// A mapping fills an element of an output.
pub open spec fn fills(
    mapping: (ViewModel, ViewModel),
    output: LowShardId,
    element: Seq<int>,
) -> bool {
    mapping.1.shard == output && covers(mapping.1.extents, element)
}

proof fn lemma_part_retiling(
    shards: Seq<ShardModel>,
    sources: Seq<LowShardId>,
    outputs: Seq<LowShardId>,
    output: LowShardId,
    g: int,
    done: Seq<(ViewModel, ViewModel)>,
)
    requires
        0 <= g,
        outputs.contains(output),
        output.0 < shards.len(),
        forall|m: int|
            0 <= m < done.len() ==> carries_in_place(
                shards,
                sources,
                outputs,
                #[trigger] done[m],
            ),
    ensures
        ({
            let to = shards[output.0 as int];
            let filed = filed_parts(shards, sources, to.extents, sources.len() as int);
            let all = part_retiling_from(shards, filed, output, to.tile, g, done);
            &&& done.len() <= all.len()
            &&& forall|m: int| 0 <= m < done.len() ==> #[trigger] all[m] == done[m]
            &&& forall|m: int|
                0 <= m < all.len() ==> carries_in_place(
                    shards,
                    sources,
                    outputs,
                    #[trigger] all[m],
                )
            &&& forall|h: int|
                g <= h < filed.len() ==> all[done.len() + h - g].1 == (ViewModel {
                    shard: output,
                    extents: retile_source(
                        shards,
                        (#[trigger] filed[h]).items,
                        to.tile,
                    ).extents,
                })
            &&& g <= filed.len() ==> all.len() == done.len() + filed.len() - g
        }),
    decreases
            filed_parts(
                shards,
                sources,
                shards[output.0 as int].extents,
                sources.len() as int,
            ).len() - g,
{
    let to = shards[output.0 as int];
    let filed = filed_parts(shards, sources, to.extents, sources.len() as int);
    if g < filed.len() {
        let source = retile_source(shards, filed[g].items, to.tile);
        let mapping = (source, ViewModel { shard: output, extents: source.extents });
        let more = done.push(mapping);
        crate::lookup::lemma_filed_parts(shards, sources, to.extents, sources.len() as int);
        lemma_last_view_is_listed(shards, filed[g].items, to.tile, filed[g].items.len() as int);
        assert(filed[g].items.len() > 0);
        assert(is_part(shards, sources, to.extents, source)) by {
            match last_view_on(shards, filed[g].items, to.tile, filed[g].items.len() as int) {
                Some(view) => {
                    let k = choose|k: int|
                        0 <= k < filed[g].items.len() && #[trigger] filed[g].items[k] == view;
                    assert(is_part(shards, sources, to.extents, filed[g].items[k]));
                },
                None => {
                    assert(is_part(shards, sources, to.extents, filed[g].items[0]));
                },
            }
        }
        assert(carries_in_place(shards, sources, outputs, mapping));
        assert forall|m: int| 0 <= m < more.len() implies carries_in_place(
            shards,
            sources,
            outputs,
            #[trigger] more[m],
        ) by {
            if m < done.len() {
                assert(more[m] == done[m]);
            }
        }
        lemma_part_retiling(shards, sources, outputs, output, g + 1, more);
        let all = part_retiling_from(shards, filed, output, to.tile, g, done);
        assert(all == part_retiling_from(shards, filed, output, to.tile, g + 1, more));
        assert forall|m: int| 0 <= m < done.len() implies #[trigger] all[m] == done[m] by {
            assert(more[m] == done[m]);
            assert(all[m] == more[m]);
        }
        assert(all[done.len() as int] == more[done.len() as int]);
    }
}

proof fn lemma_retiling_from(
    shards: Seq<ShardModel>,
    sources: Seq<LowShardId>,
    outputs: Seq<LowShardId>,
    k: int,
    done: Seq<(ViewModel, ViewModel)>,
)
    requires
        0 <= k <= outputs.len(),
        forall|m: int|
            0 <= m < done.len() ==> carries_in_place(
                shards,
                sources,
                outputs,
                #[trigger] done[m],
            ),
    ensures
        match retiling_from(shards, sources, outputs, k, done) {
            Err(_) => true,
            Ok(all) => {
                &&& done.len() <= all.len()
                &&& forall|m: int| 0 <= m < done.len() ==> #[trigger] all[m] == done[m]
                &&& forall|m: int|
                    0 <= m < all.len() ==> carries_in_place(
                        shards,
                        sources,
                        outputs,
                        #[trigger] all[m],
                    )
            },
        },
    decreases outputs.len() - k,
{
    if k < outputs.len() {
        if let Ok(to) = shard_of(shards, outputs[k]) {
            let more = part_retiling_from(
                shards,
                filed_parts(shards, sources, to.extents, sources.len() as int),
                outputs[k],
                to.tile,
                0,
                done,
            );
            lemma_part_retiling(shards, sources, outputs, outputs[k], 0, done);
            lemma_retiling_from(shards, sources, outputs, k + 1, more);
            if let Ok(all) = retiling_from(shards, sources, outputs, k, done) {
                assert forall|m: int| 0 <= m < done.len() implies #[trigger] all[m] == done[m] by {
                    assert(more[m] == done[m]);
                    assert(all[m] == more[m]);
                }
            }
        }
    }
}

/// A retiling carries every element to the same element of an output, from a
/// source that holds it.
pub proof fn lemma_retiling_carries_in_place(
    shards: Seq<ShardModel>,
    sources: Seq<LowShardId>,
    outputs: Seq<LowShardId>,
)
    ensures
        match retiling_from(shards, sources, outputs, 0, Seq::empty()) {
            Err(_) => true,
            Ok(mappings) => forall|m: int|
                0 <= m < mappings.len() ==> carries_in_place(
                    shards,
                    sources,
                    outputs,
                    #[trigger] mappings[m],
                ),
        },
{
    lemma_retiling_from(shards, sources, outputs, 0, Seq::empty());
}

proof fn lemma_retiling_fills_from(
    shards: Seq<ShardModel>,
    sources: Seq<LowShardId>,
    outputs: Seq<LowShardId>,
    at: int,
    done: Seq<(ViewModel, ViewModel)>,
    k: int,
    j: int,
    element: Seq<int>,
)
    requires
        0 <= at <= k < outputs.len(),
        forall|m: int|
            0 <= m < done.len() ==> carries_in_place(
                shards,
                sources,
                outputs,
                #[trigger] done[m],
            ),
        outputs[k].0 < shards.len(),
        0 <= j < sources.len(),
        sources[j].0 < shards.len(),
        covers(shards[outputs[k].0 as int].extents, element),
        covers(shards[sources[j].0 as int].extents, element),
    ensures
        match retiling_from(shards, sources, outputs, at, done) {
            Err(_) => true,
            Ok(all) => exists|m: int|
                0 <= m < all.len() && fills(#[trigger] all[m], outputs[k], element),
        },
    decreases k - at,
{
    if let Ok(to) = shard_of(shards, outputs[at]) {
        let filed = filed_parts(shards, sources, to.extents, sources.len() as int);
        let more = part_retiling_from(shards, filed, outputs[at], to.tile, 0, done);
        lemma_part_retiling(shards, sources, outputs, outputs[at], 0, done);
        if at < k {
            lemma_retiling_fills_from(shards, sources, outputs, at + 1, more, k, j, element);
        } else {
            let g = lemma_group_of_element(shards, sources, to.extents, j, element);
            let items = filed[g].items;
            let m = done.len() + g;
            lemma_last_view_is_listed(shards, items, to.tile, items.len() as int);
            assert(covers(filed[g].items[0].extents, element));
            assert(covers(retile_source(shards, items, to.tile).extents, element)) by {
                if let Some(view) = last_view_on(shards, items, to.tile, items.len() as int) {
                    let i = choose|i: int| 0 <= i < items.len() && #[trigger] items[i] == view;
                    assert(covers(filed[g].items[i].extents, element));
                }
            }
            assert(fills(more[m], outputs[k], element));
            lemma_retiling_from(shards, sources, outputs, k + 1, more);
            if let Ok(all) = retiling_from(shards, sources, outputs, at, done) {
                assert(all[m] == more[m]);
            }
        }
    }
}

/// A retiling fills every element of an output that some source holds.
pub proof fn lemma_retiling_fills_outputs(
    shards: Seq<ShardModel>,
    sources: Seq<LowShardId>,
    outputs: Seq<LowShardId>,
    k: int,
    j: int,
    element: Seq<int>,
)
    requires
        0 <= k < outputs.len(),
        outputs[k].0 < shards.len(),
        0 <= j < sources.len(),
        sources[j].0 < shards.len(),
        covers(shards[outputs[k].0 as int].extents, element),
        covers(shards[sources[j].0 as int].extents, element),
    ensures
        match retiling_from(shards, sources, outputs, 0, Seq::empty()) {
            Err(_) => true,
            Ok(mappings) => exists|m: int|
                0 <= m < mappings.len() && fills(#[trigger] mappings[m], outputs[k], element),
        },
{
    lemma_retiling_fills_from(shards, sources, outputs, 0, Seq::empty(), k, j, element);
}

} // verus!
