//! Lexicographic keys, and groups of items kept in key order.

use crate::low::{LowShardId, ShardView, ViewModel};
use crate::model::{deep, group_deep, same_words};
use crate::tensor::ShardExtent;
use vstd::prelude::*;

verus! {

/// Lexicographic comparison of the parts of two keys from position `i` on.
pub open spec fn less_from(a: Seq<u32>, b: Seq<u32>, i: int) -> bool
    decreases b.len() - i,
{
    if i >= b.len() {
        false
    } else if i >= a.len() {
        true
    } else if a[i] != b[i] {
        a[i] < b[i]
    } else {
        less_from(a, b, i + 1)
    }
}

/// Lexicographic order of keys: a proper prefix comes first.
pub open spec fn less(a: Seq<u32>, b: Seq<u32>) -> bool {
    less_from(a, b, 0)
}

proof fn lemma_less_from_irreflexive(a: Seq<u32>, i: int)
    ensures
        !less_from(a, a, i),
    decreases a.len() - i,
{
    if i < a.len() {
        lemma_less_from_irreflexive(a, i + 1);
    }
}

proof fn lemma_less_from_transitive(a: Seq<u32>, b: Seq<u32>, c: Seq<u32>, i: int)
    requires
        less_from(a, b, i),
        less_from(b, c, i),
    ensures
        less_from(a, c, i),
    decreases c.len() - i,
{
    if i < a.len() && i < b.len() && i < c.len() && a[i] == b[i] && b[i] == c[i] {
        lemma_less_from_transitive(a, b, c, i + 1);
    }
}

proof fn lemma_less_from_total(a: Seq<u32>, b: Seq<u32>, i: int)
    requires
        0 <= i,
        i <= a.len() && i <= b.len(),
        forall|k: int| 0 <= k < i ==> a[k] == b[k],
        !less_from(a, b, i),
        !less_from(b, a, i),
    ensures
        a == b,
    decreases b.len() - i,
{
    if i < a.len() && i < b.len() {
        lemma_less_from_total(a, b, i + 1);
    } else {
        assert(a =~= b);
    }
}

/// The key order is a strict total order.
pub proof fn lemma_less_is_strict_order(a: Seq<u32>, b: Seq<u32>, c: Seq<u32>)
    ensures
        !less(a, a),
        less(a, b) && less(b, c) ==> less(a, c),
        less(a, b) || less(b, a) || a == b,
{
    lemma_less_from_irreflexive(a, 0);
    if less(a, b) && less(b, c) {
        lemma_less_from_transitive(a, b, c, 0);
    }
    if !less(a, b) && !less(b, a) {
        lemma_less_from_total(a, b, 0);
    }
}

pub fn key_less(a: &[u32], b: &[u32]) -> (r: bool)
    ensures
        r == less(a@, b@),
{
    let mut i: usize = 0;
    while i < b.len()
        invariant
            i <= b@.len(),
            i <= a@.len(),
            less(a@, b@) == less_from(a@, b@, i as int),
        decreases b@.len() - i,
    {
        if i >= a.len() {
            return true;
        }
        if a[i] != b[i] {
            return a[i] < b[i];
        }
        i += 1;
    }
    false
}

/// The four coordinates of an extent, in comparison order.
pub open spec fn coordinate(extent: ShardExtent, field: int) -> u32 {
    if field == 0 {
        extent.axis as u32
    } else if field == 1 {
        extent.start
    } else if field == 2 {
        extent.logical_end
    } else {
        extent.physical_end
    }
}

/// Key by which rectangles are ordered.
pub open spec fn extents_key(extents: Seq<ShardExtent>) -> Seq<u32> {
    Seq::new(4 * extents.len(), |i: int| coordinate(extents[i / 4], i % 4))
}

/// Key by which views are ordered: the shard first, then its rectangle.
pub open spec fn view_key(view: ViewModel) -> Seq<u32> {
    seq![view.shard.0] + extents_key(view.extents)
}

proof fn lemma_coordinate(extents: Seq<ShardExtent>, i: int, field: int)
    requires
        0 <= i < extents.len(),
        0 <= field < 4,
    ensures
        extents_key(extents)[4 * i + field] == coordinate(extents[i], field),
{
    let at = 4 * i + field;
    assert(at / 4 == i && at % 4 == field);
    assert(extents_key(extents)[at] == coordinate(extents[at / 4], at % 4));
}

/// Different rectangles have different keys.
pub proof fn lemma_extents_key_injective(a: Seq<ShardExtent>, b: Seq<ShardExtent>)
    requires
        extents_key(a) == extents_key(b),
    ensures
        a == b,
{
    assert(extents_key(a).len() == 4 * a.len());
    assert(extents_key(b).len() == 4 * b.len());
    assert forall|i: int| 0 <= i < a.len() implies a[i] == b[i] by {
        assert forall|field: int| 0 <= field < 4 implies #[trigger] coordinate(a[i], field)
            == coordinate(b[i], field) by {
            lemma_coordinate(a, i, field);
            lemma_coordinate(b, i, field);
        }
        assert(coordinate(a[i], 0) == coordinate(b[i], 0));
        assert(coordinate(a[i], 1) == coordinate(b[i], 1));
        assert(coordinate(a[i], 2) == coordinate(b[i], 2));
        assert(coordinate(a[i], 3) == coordinate(b[i], 3));
    }
    assert(a =~= b);
}

/// Different views have different keys.
pub proof fn lemma_view_key_injective(a: ViewModel, b: ViewModel)
    requires
        view_key(a) == view_key(b),
    ensures
        a == b,
{
    assert(view_key(a)[0] == a.shard.0);
    assert(view_key(b)[0] == b.shard.0);
    assert(view_key(a).subrange(1, view_key(a).len() as int) =~= extents_key(a.extents));
    assert(view_key(b).subrange(1, view_key(b).len() as int) =~= extents_key(b.extents));
    lemma_extents_key_injective(a.extents, b.extents);
}

fn push_coordinates(key: &mut Vec<u32>, extents: &[ShardExtent])
    ensures
        final(key)@ == old(key)@ + extents_key(extents@),
{
    let mut i: usize = 0;
    let ghost prefix = key@;
    while i < extents.len()
        invariant
            i <= extents@.len(),
            key@ == prefix + extents_key(extents@).subrange(0, 4 * i),
        decreases extents@.len() - i,
    {
        let extent: ShardExtent = extents[i];
        key.push(extent.axis as u32);
        key.push(extent.start);
        key.push(extent.logical_end);
        key.push(extent.physical_end);
        proof {
            let whole = extents_key(extents@);
            assert(whole[4 * i] == extent.axis as u32);
            assert(whole[4 * i + 1] == extent.start);
            assert(whole[4 * i + 2] == extent.logical_end);
            assert(whole[4 * i + 3] == extent.physical_end);
            assert(key@ =~= prefix + whole.subrange(0, 4 * (i + 1)));
        }
        i += 1;
    }
    assert(extents_key(extents@).subrange(0, 4 * extents@.len() as int) =~= extents_key(extents@));
}

pub fn key_of_extents(extents: &[ShardExtent]) -> (r: Vec<u32>)
    ensures
        r@ == extents_key(extents@),
{
    let mut key: Vec<u32> = Vec::new();
    push_coordinates(&mut key, extents);
    assert(key@ =~= extents_key(extents@));
    key
}

pub fn key_of_view(view: &ShardView) -> (r: Vec<u32>)
    ensures
        r@ == view_key(view@),
{
    let mut key: Vec<u32> = Vec::new();
    key.push(view.shard.0);
    push_coordinates(&mut key, view.extents.as_slice());
    assert(key@ =~= view_key(view@));
    key
}

pub fn key_of_id(id: LowShardId) -> (r: Vec<u32>)
    ensures
        r@ == seq![id.0],
{
    let mut key: Vec<u32> = Vec::new();
    key.push(id.0);
    assert(key@ =~= seq![id.0]);
    key
}

impl View for LowShardId {
    type V = LowShardId;

    open spec fn view(&self) -> LowShardId {
        *self
    }
}

/// The items that were inserted under one key, in insertion order.
#[derive(Debug)]
pub struct Group<X> {
    pub key: Vec<u32>,
    pub items: Vec<X>,
}

/// Abstract value of a [`Group`].
pub struct GroupModel<V> {
    pub key: Seq<u32>,
    pub items: Seq<V>,
}

impl<X: View> View for Group<X> {
    type V = GroupModel<X::V>;

    open spec fn view(&self) -> GroupModel<X::V> {
        GroupModel { key: self.key@, items: deep(self.items@) }
    }
}

/// Groups with strictly increasing keys.
#[derive(Debug)]
pub struct Groups<X> {
    pub entries: Vec<Group<X>>,
}

impl<X: View> View for Groups<X> {
    type V = Seq<GroupModel<X::V>>;

    open spec fn view(&self) -> Seq<GroupModel<X::V>> {
        deep(self.entries@)
    }
}

/// The keys increase strictly.
pub open spec fn groups_sorted<V>(groups: Seq<GroupModel<V>>) -> bool {
    forall|i: int, j: int|
        0 <= i < j < groups.len() ==> less((#[trigger] groups[i]).key, (#[trigger] groups[j]).key)
}

/// The first position from `i` on whose key does not come before `key`.
pub open spec fn slot_from<V>(groups: Seq<GroupModel<V>>, key: Seq<u32>, i: int) -> int
    decreases groups.len() - i,
{
    if 0 <= i < groups.len() && less(groups[i].key, key) {
        slot_from(groups, key, i + 1)
    } else {
        i
    }
}

/// The groups after one more item was filed under `key`.
pub open spec fn groups_insert<V>(groups: Seq<GroupModel<V>>, key: Seq<u32>, item: V) -> Seq<
    GroupModel<V>,
> {
    let slot = slot_from(groups, key, 0);
    if slot < groups.len() && groups[slot].key == key {
        groups.update(slot, GroupModel { key, items: groups[slot].items.push(item) })
    } else {
        groups.insert(slot, GroupModel { key, items: seq![item] })
    }
}

/// The items filed under `key`.
pub open spec fn items_under<V>(groups: Seq<GroupModel<V>>, key: Seq<u32>) -> Seq<V> {
    let slot = slot_from(groups, key, 0);
    if slot < groups.len() && groups[slot].key == key {
        groups[slot].items
    } else {
        Seq::empty()
    }
}

proof fn lemma_slot<V>(groups: Seq<GroupModel<V>>, key: Seq<u32>, i: int)
    requires
        0 <= i <= groups.len(),
    ensures
        i <= slot_from(groups, key, i) <= groups.len(),
        forall|k: int| i <= k < slot_from(groups, key, i) ==> less((#[trigger] groups[k]).key, key),
        slot_from(groups, key, i) < groups.len() ==> !less(
            groups[slot_from(groups, key, i)].key,
            key,
        ),
    decreases groups.len() - i,
{
    if i < groups.len() && less(groups[i].key, key) {
        lemma_slot(groups, key, i + 1);
    }
}

/// A slot is a position where an item can be put.
pub proof fn lemma_slot_bounds<V>(groups: Seq<GroupModel<V>>, key: Seq<u32>)
    ensures
        0 <= slot_from(groups, key, 0) <= groups.len(),
{
    lemma_slot(groups, key, 0);
}

/// In sorted groups a key's slot is where the key stands, if it is there.
pub proof fn lemma_slot_of_member<V>(groups: Seq<GroupModel<V>>, i: int)
    requires
        groups_sorted(groups),
        0 <= i < groups.len(),
    ensures
        slot_from(groups, groups[i].key, 0) == i,
        items_under(groups, groups[i].key) == groups[i].items,
{
    let slot = slot_from(groups, groups[i].key, 0);
    lemma_slot(groups, groups[i].key, 0);
    lemma_less_is_strict_order(groups[i].key, groups[i].key, groups[i].key);
    if slot < i {
        assert(less(groups[slot].key, groups[i].key));
    } else if slot > i {
        assert(less(groups[i].key, groups[i].key));
    }
}

/// Filing an item keeps the groups sorted.
pub proof fn lemma_insert_sorted<V>(groups: Seq<GroupModel<V>>, key: Seq<u32>, item: V)
    requires
        groups_sorted(groups),
    ensures
        groups_sorted(groups_insert(groups, key, item)),
{
    let slot = slot_from(groups, key, 0);
    lemma_slot(groups, key, 0);
    let after = groups_insert(groups, key, item);
    assert forall|i: int, j: int| 0 <= i < j < after.len() implies less(
        (#[trigger] after[i]).key,
        (#[trigger] after[j]).key,
    ) by {
        if slot < groups.len() && groups[slot].key == key {
            assert(after[i].key == groups[i].key);
            assert(after[j].key == groups[j].key);
        } else {
            if slot < groups.len() {
                lemma_less_is_strict_order(key, groups[slot].key, key);
            }
            if i < slot && j == slot {
                assert(less(groups[i].key, key));
            } else if i == slot {
                if j - 1 > slot {
                    assert(less(groups[slot].key, groups[j - 1].key));
                    lemma_less_is_strict_order(key, groups[slot].key, groups[j - 1].key);
                }
            }
        }
    }
}

/// Every group holds an item after an item was filed, if it did before.
pub proof fn lemma_insert_nonempty<V>(groups: Seq<GroupModel<V>>, key: Seq<u32>, item: V)
    requires
        forall|i: int| 0 <= i < groups.len() ==> (#[trigger] groups[i]).items.len() > 0,
    ensures
        forall|i: int|
            0 <= i < groups_insert(groups, key, item).len() ==> (#[trigger] groups_insert(
                groups,
                key,
                item,
            )[i]).items.len() > 0,
{
    lemma_slot(groups, key, 0);
    let slot = slot_from(groups, key, 0);
    let after = groups_insert(groups, key, item);
    assert forall|i: int| 0 <= i < after.len() implies (#[trigger] after[i]).items.len() > 0 by {
        if slot < groups.len() && groups[slot].key == key {
        } else if i < slot {
            assert(after[i] == groups[i]);
        } else if i > slot {
            assert(after[i] == groups[i - 1]);
        }
    }
}

impl<X: View> Groups<X> {
    /// No groups.
    pub fn new() -> (r: Self)
        ensures
            r@ == Seq::<GroupModel<X::V>>::empty(),
    {
        let r = Groups { entries: Vec::new() };
        assert(r@ =~= Seq::<GroupModel<X::V>>::empty());
        r
    }

    /// Files an item under a key.
    pub fn insert(&mut self, key: Vec<u32>, item: X)
        ensures
            final(self)@ == groups_insert(old(self)@, key@, item@),
    {
        broadcast use group_deep;

        let ghost before = self@;
        let mut slot: usize = 0;
        while slot < self.entries.len() && key_less(
            self.entries[slot].key.as_slice(),
            key.as_slice(),
        )
            invariant
                slot <= self.entries@.len(),
                self@ == before,
                slot_from(before, key@, 0) == slot_from(before, key@, slot as int),
            decreases self.entries@.len() - slot,
        {
            assert(before[slot as int] == self.entries@[slot as int]@);
            slot += 1;
        }
        if slot < self.entries.len() {
            assert(before[slot as int] == self.entries@[slot as int]@);
        }
        assert(slot_from(before, key@, 0) == slot);
        if slot < self.entries.len() && same_words(
            self.entries[slot].key.as_slice(),
            key.as_slice(),
        ) {
            let ghost entries = self.entries@;
            self.entries[slot].items.push(item);
            proof {
                let entry = self.entries@[slot as int];
                assert(self.entries@ =~= entries.update(slot as int, entry));
                assert(entry@ == GroupModel { key: key@, items: before[slot as int].items.push(item@) });
            }
        } else {
            let mut items: Vec<X> = Vec::new();
            items.push(item);
            let group = Group { key, items };
            let ghost entries = self.entries@;
            proof {
                assert(deep(items@) =~= seq![item@]);
            }
            self.entries.insert(slot, group);
            assert(self@ =~= before.insert(slot as int, group@));
        }
    }
}

} // verus!
