//! A bounded table of results that were computed before.

use crate::fragments::sat_add;
use crate::model::{deep, group_deep, Model};
use vstd::multiset::Multiset;
use vstd::prelude::*;

verus! {

// ---------------------------------------------------------------- fingerprints

/// Positions of entries, found by the fingerprint that each was filed under.
/// The allocator parameter of the table keeps the table itself from being
/// declared, so it is held here.
#[verifier::external_body]
#[derive(Debug)]
pub struct Fingerprints {
    table: hashbrown::HashTable<(u64, usize)>,
}

/// What a table holds: fingerprints with positions.
pub uninterp spec fn filed(table: Fingerprints) -> Multiset<(u64, usize)>;

/// `hashbrown::HashTable::new`: the new table holds nothing.
#[verifier::external_body]
fn new_table() -> (r: Fingerprints)
    ensures
        filed(r) == Multiset::<(u64, usize)>::empty(),
{
    Fingerprints { table: hashbrown::HashTable::new() }
}

/// `hashbrown::HashTable::insert_unique`: the table holds one more position,
/// and all that it held before. The table may call back for the fingerprint of
/// what it holds, and is given the one that was filed.
#[verifier::external_body]
fn file(table: &mut Fingerprints, fingerprint: u64, at: usize)
    ensures
        filed(*final(table)) == filed(*old(table)).insert((fingerprint, at)),
{
    table.table.insert_unique(fingerprint, (fingerprint, at), |entry| entry.0);
}

/// `hashbrown::HashTable::find`: some position that the table holds and whose
/// entry has the key, if the call returns one. The table asks of every position
/// under the fingerprint, and may ask of others: if the call returns none, no
/// entry under the fingerprint has the key. Which of several such positions is
/// returned is not stated.
#[verifier::external_body]
fn find_position<K: Model, V: Model>(
    table: &Fingerprints,
    fingerprint: u64,
    entries: &Vec<MemoEntry<K, V>>,
    key: &K,
) -> (r: Option<usize>)
    ensures
        match r {
            Some(at) => holds_key(deep(entries@), at as int, key@) && exists|other: u64|
                filed(*table).contains((other, at)),
            None => forall|at: usize| #[trigger]
                filed(*table).contains((fingerprint, at)) ==> !holds_key(
                    deep(entries@),
                    at as int,
                    key@,
                ),
        },
{
    table.table.find(fingerprint, |entry| has_key(entries, entry.1, key)).map(|entry| entry.1)
}

/// `foldhash::fast::FixedState::default` with `hash_one`: a fingerprint of the
/// words. Nothing is stated of it: how the words are mixed differs between
/// machines with and without wide multiplication, and between byte orders.
#[verifier::external_body]
pub(crate) fn fingerprint(words: &Vec<u32>) -> (r: u64) {
    std::hash::BuildHasher::hash_one(&foldhash::fast::FixedState::default(), words)
}

// ---------------------------------------------------------------- memos

/// A result with the key that it was computed for.
#[derive(Debug)]
pub struct MemoEntry<K, V> {
    pub fingerprint: u64,
    pub key: K,
    pub value: V,
}

/// Abstract value of a [`MemoEntry`].
pub struct EntryModel<K, V> {
    pub fingerprint: u64,
    pub key: K,
    pub value: V,
}

impl<K: View, V: View> View for MemoEntry<K, V> {
    type V = EntryModel<K::V, V::V>;

    open spec fn view(&self) -> EntryModel<K::V, V::V> {
        EntryModel { fingerprint: self.fingerprint, key: self.key@, value: self.value@ }
    }
}

/// The entry at a position has the key.
pub open spec fn holds_key<K, V>(entries: Seq<EntryModel<K, V>>, at: int, key: K) -> bool {
    0 <= at < entries.len() && entries[at].key == key
}

fn has_key<K: Model, V: Model>(entries: &Vec<MemoEntry<K, V>>, at: usize, key: &K) -> (r: bool)
    ensures
        r == holds_key(deep(entries@), at as int, key@),
{
    broadcast use group_deep;

    at < entries.len() && entries[at].key.same(key)
}

/// A table leads to every entry, and nowhere else.
spec fn leads_to<K, V>(table: Fingerprints, entries: Seq<MemoEntry<K, V>>) -> bool {
    &&& forall|at: int|
        0 <= at < entries.len() ==> at <= usize::MAX && filed(table).contains(
            ((#[trigger] entries[at]).fingerprint, at as usize),
        )
    &&& forall|fingerprint: u64, at: usize| #[trigger]
        filed(table).contains((fingerprint, at)) ==> at < entries.len()
            && entries[at as int].fingerprint == fingerprint
}

proof fn lemma_filing<K, V>(
    table: Fingerprints,
    after: Fingerprints,
    entries: Seq<MemoEntry<K, V>>,
    more: Seq<MemoEntry<K, V>>,
    fingerprint: u64,
    count: usize,
)
    requires
        leads_to(table, entries),
        count == entries.len(),
        filed(after) == filed(table).insert((fingerprint, count)),
        more.len() == entries.len() + 1,
        more.drop_last() == entries,
        more.last().fingerprint == fingerprint,
    ensures
        leads_to(after, more),
{
    broadcast use vstd::multiset::group_multiset_axioms;

    assert forall|at: int| 0 <= at < more.len() implies at <= usize::MAX && filed(after).contains(
        ((#[trigger] more[at]).fingerprint, at as usize),
    ) by {
        if at < entries.len() {
            assert(more[at] == more.drop_last()[at]);
            assert(filed(table).contains((entries[at].fingerprint, at as usize)));
        }
    }
    assert forall|other: u64, at: usize| #[trigger] filed(after).contains((other, at)) implies at
        < more.len() && more[at as int].fingerprint == other by {
        if (other, at) != (fingerprint, count) {
            assert(filed(table).contains((other, at)));
            assert(more[at as int] == more.drop_last()[at as int]);
        }
    }
}

/// Results by key, with counts of the searches that found one and of those that
/// did not.
#[derive(Debug)]
pub struct Memo<K, V> {
    table: Fingerprints,
    entries: Vec<MemoEntry<K, V>>,
    hits: u64,
    misses: u64,
}

/// Abstract value of a [`Memo`].
pub struct MemoModel<K, V> {
    pub entries: Seq<EntryModel<K, V>>,
    pub hits: u64,
    pub misses: u64,
}

impl<K: View, V: View> View for Memo<K, V> {
    type V = MemoModel<K::V, V::V>;

    closed spec fn view(&self) -> MemoModel<K::V, V::V> {
        MemoModel { entries: deep(self.entries@), hits: self.hits, misses: self.misses }
    }
}

/// Some entry has the key.
pub open spec fn knows<K, V>(memo: MemoModel<K, V>, key: K) -> bool {
    exists|at: int| #[trigger] holds_key(memo.entries, at, key)
}

/// Some entry under the fingerprint has the key.
pub open spec fn knows_under<K, V>(memo: MemoModel<K, V>, fingerprint: u64, key: K) -> bool {
    exists|at: int|
        #[trigger] holds_key(memo.entries, at, key) && memo.entries[at].fingerprint == fingerprint
}

/// Some entry has the key and the result.
pub open spec fn recalls<K, V>(memo: MemoModel<K, V>, key: K, value: V) -> bool {
    exists|at: int|
        #[trigger] holds_key(memo.entries, at, key) && memo.entries[at].value == value
}

impl<K: Model, V: Model> Memo<K, V> {
    /// The table leads to every entry, and nowhere else.
    pub closed spec fn wf(&self) -> bool {
        leads_to(self.table, self.entries@)
    }

    /// No results.
    pub fn new() -> (r: Self)
        ensures
            r.wf(),
            r@.entries == Seq::<EntryModel<K::V, V::V>>::empty(),
            r@.hits == 0,
            r@.misses == 0,
    {
        broadcast use group_deep;

        broadcast use vstd::multiset::group_multiset_axioms;

        let r = Memo { table: new_table(), entries: Vec::new(), hits: 0, misses: 0 };
        assert(r@.entries =~= Seq::<EntryModel<K::V, V::V>>::empty());
        r
    }

    /// Looks for a result, and counts the search. A result is one that was
    /// recorded for the key. None is found only where none was recorded for the
    /// key under the fingerprint.
    pub fn get(&mut self, fingerprint: u64, key: &K) -> (r: Option<V>)
        requires
            old(self).wf(),
        ensures
            final(self).wf(),
            final(self)@.entries == old(self)@.entries,
            match r {
                Some(value) => recalls(old(self)@, key@, value@) && final(self)@.hits == sat_add(
                    old(self)@.hits,
                    1,
                ) && final(self)@.misses == old(self)@.misses,
                None => !knows_under(old(self)@, fingerprint, key@) && final(self)@.misses
                    == sat_add(old(self)@.misses, 1) && final(self)@.hits == old(self)@.hits,
            },
    {
        broadcast use group_deep;

        let count: usize = self.entries.len();
        match find_position(&self.table, fingerprint, &self.entries, key) {
            Some(at) => {
                assert(holds_key(self@.entries, at as int, key@));
                let value = self.entries[at].value.duplicate();
                self.hits = self.hits.saturating_add(1);
                Some(value)
            },
            None => {
                proof {
                    assert forall|at: int| #[trigger]
                        holds_key(self@.entries, at, key@) implies self@.entries[at].fingerprint
                        != fingerprint by {
                        assert(self.entries@[at]@ == self@.entries[at]);
                        assert(at < count && at as usize == at);
                        if self.entries@[at].fingerprint == fingerprint {
                            assert(filed(self.table).contains((fingerprint, at as usize)));
                        }
                    }
                }
                self.misses = self.misses.saturating_add(1);
                None
            },
        }
    }

    /// Records a result, unless there are as many as allowed, or there is one
    /// for the key under the fingerprint.
    pub fn insert(&mut self, fingerprint: u64, key: K, value: V, limit: usize)
        requires
            old(self).wf(),
        ensures
            final(self).wf(),
            final(self)@.hits == old(self)@.hits,
            final(self)@.misses == old(self)@.misses,
            final(self)@.entries == old(self)@.entries || final(self)@.entries == old(
                self,
            )@.entries.push(EntryModel { fingerprint, key: key@, value: value@ }),
            old(self)@.entries.len() >= limit || knows_under(old(self)@, fingerprint, key@)
                ==> final(self)@.entries == old(self)@.entries,
            old(self)@.entries.len() < limit && !knows(old(self)@, key@) ==> final(self)@.entries
                == old(self)@.entries.push(EntryModel { fingerprint, key: key@, value: value@ }),
    {
        broadcast use group_deep;

        let count: usize = self.entries.len();
        if count >= limit {
            return;
        }
        match find_position(&self.table, fingerprint, &self.entries, &key) {
            Some(at) => {
                assert(holds_key(self@.entries, at as int, key@));
            },
            None => {
                proof {
                    assert forall|at: int| #[trigger]
                        holds_key(self@.entries, at, key@) implies self@.entries[at].fingerprint
                        != fingerprint by {
                        assert(self.entries@[at]@ == self@.entries[at]);
                        assert(at < count && at as usize == at);
                        if self.entries@[at].fingerprint == fingerprint {
                            assert(filed(self.table).contains((fingerprint, at as usize)));
                        }
                    }
                }
                let ghost table = self.table;
                let ghost before = self.entries@;
                file(&mut self.table, fingerprint, count);
                let entry = MemoEntry { fingerprint, key, value };
                self.entries.push(entry);
                proof {
                    assert(self.entries@.drop_last() =~= before);
                    lemma_filing(table, self.table, before, self.entries@, fingerprint, count);
                }
            },
        }
    }

    /// Whether there are fewer results than allowed.
    pub fn has_capacity(&self, limit: usize) -> (r: bool)
        ensures
            r == (self@.entries.len() < limit),
    {
        self.entries.len() < limit
    }

    /// Results, searches that found one, and searches that did not.
    pub fn stats(&self) -> (r: (usize, u64, u64))
        ensures
            r.0 == self@.entries.len(),
            r.1 == self@.hits,
            r.2 == self@.misses,
    {
        (self.entries.len(), self.hits, self.misses)
    }
}

impl Model for u64 {
    fn duplicate(&self) -> (r: Self) {
        *self
    }

    fn same(&self, other: &Self) -> (b: bool) {
        *self == *other
    }
}

} // verus!
