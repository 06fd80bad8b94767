//! Abstract values of executable data, and the two operations every such
//! value supports: copying and comparison.

use vstd::prelude::*;

verus! {

/// The abstract values of the elements of a sequence.
pub open spec fn deep<T: View>(s: Seq<T>) -> Seq<T::V> {
    Seq::new(s.len(), |i: int| s[i]@)
}

pub broadcast proof fn lemma_deep_push<T: View>(s: Seq<T>, x: T)
    ensures
        #[trigger] deep(s.push(x)) == deep(s).push(x@),
{
    assert(deep(s.push(x)) =~= deep(s).push(x@));
}

pub broadcast proof fn lemma_deep_update<T: View>(s: Seq<T>, i: int, x: T)
    requires
        0 <= i < s.len(),
    ensures
        #[trigger] deep(s.update(i, x)) == deep(s).update(i, x@),
{
    assert(deep(s.update(i, x)) =~= deep(s).update(i, x@));
}

pub broadcast proof fn lemma_deep_empty<T: View>()
    ensures
        #[trigger] deep(Seq::<T>::empty()) == Seq::<T::V>::empty(),
{
    assert(deep(Seq::<T>::empty()) =~= Seq::<T::V>::empty());
}

pub broadcast proof fn lemma_deep_add<T: View>(a: Seq<T>, b: Seq<T>)
    ensures
        #[trigger] deep(a + b) == deep(a) + deep(b),
{
    assert(deep(a + b) =~= deep(a) + deep(b));
}

pub broadcast proof fn lemma_deep_len<T: View>(s: Seq<T>)
    ensures
        (#[trigger] deep(s)).len() == s.len(),
{
}

pub broadcast proof fn lemma_deep_index<T: View>(s: Seq<T>, i: int)
    requires
        0 <= i < s.len(),
    ensures
        #[trigger] deep(s)[i] == s[i]@,
{
}

pub broadcast group group_deep {
    lemma_deep_push,
    lemma_deep_update,
    lemma_deep_empty,
    lemma_deep_add,
    lemma_deep_len,
    lemma_deep_index,
}

/// A value that is determined by its abstract value as far as callers can see.
pub trait Model: View + Sized {
    /// A copy with the same abstract value.
    fn duplicate(&self) -> (r: Self)
        ensures
            r@ == self@,
    ;

    /// Whether two abstract values are the same.
    fn same(&self, other: &Self) -> (b: bool)
        ensures
            b == (self@ == other@),
    ;
}

pub fn duplicate_all<T: Model>(items: &Vec<T>) -> (r: Vec<T>)
    ensures
        deep(r@) == deep(items@),
        r@.len() == items@.len(),
{
    broadcast use group_deep;

    let mut r: Vec<T> = Vec::new();
    let mut i: usize = 0;
    while i < items.len()
        invariant
            i <= items@.len(),
            r@.len() == i,
            forall|k: int| 0 <= k < i ==> (#[trigger] r@[k])@ == items@[k]@,
        decreases items@.len() - i,
    {
        r.push(items[i].duplicate());
        i += 1;
    }
    assert(deep(r@) =~= deep(items@));
    r
}

pub fn same_all<T: Model>(a: &Vec<T>, b: &Vec<T>) -> (r: bool)
    ensures
        r == (deep(a@) == deep(b@)),
{
    broadcast use group_deep;

    if a.len() != b.len() {
        assert(deep(a@).len() != deep(b@).len());
        return false;
    }
    let mut i: usize = 0;
    while i < a.len()
        invariant
            i <= a@.len(),
            a@.len() == b@.len(),
            forall|k: int| 0 <= k < i ==> (#[trigger] a@[k])@ == b@[k]@,
        decreases a@.len() - i,
    {
        if !a[i].same(&b[i]) {
            assert(deep(a@)[i as int] != deep(b@)[i as int]);
            return false;
        }
        i += 1;
    }
    assert(deep(a@) =~= deep(b@));
    true
}

/// A copy of a sequence of plain values.
pub fn copy_all<T: Copy>(items: &[T]) -> (r: Vec<T>)
    ensures
        r@ == items@,
{
    let mut r: Vec<T> = Vec::new();
    let mut i: usize = 0;
    while i < items.len()
        invariant
            i <= items@.len(),
            r@ == items@.subrange(0, i as int),
        decreases items@.len() - i,
    {
        r.push(items[i]);
        i += 1;
        assert(r@ =~= items@.subrange(0, i as int));
    }
    assert(r@ =~= items@);
    r
}

pub fn same_words(a: &[u32], b: &[u32]) -> (r: bool)
    ensures
        r == (a@ == b@),
{
    if a.len() != b.len() {
        return false;
    }
    let mut i: usize = 0;
    while i < a.len()
        invariant
            i <= a@.len(),
            a@.len() == b@.len(),
            forall|k: int| 0 <= k < i ==> a@[k] == b@[k],
        decreases a@.len() - i,
    {
        if a[i] != b[i] {
            return false;
        }
        i += 1;
    }
    assert(a@ =~= b@);
    true
}

pub fn same_indices(a: &[u16], b: &[u16]) -> (r: bool)
    ensures
        r == (a@ == b@),
{
    if a.len() != b.len() {
        return false;
    }
    let mut i: usize = 0;
    while i < a.len()
        invariant
            i <= a@.len(),
            a@.len() == b@.len(),
            forall|k: int| 0 <= k < i ==> a@[k] == b@[k],
        decreases a@.len() - i,
    {
        if a[i] != b[i] {
            return false;
        }
        i += 1;
    }
    assert(a@ =~= b@);
    true
}

} // verus!
