//! Comparing and copying values by what they hold, for the types whose fields are texts and
//! lists, where `==` in verified code says nothing of the fields.

use vstd::prelude::*;

verus! {

/// A value that can be compared with and copied as its plain view.
pub trait Alike: View + Sized {
    /// Whether the two hold the same.
    fn alike(&self, other: &Self) -> (r: bool)
        ensures
            r == (self@ == other@),
    ;

    /// A copy that holds the same.
    fn duplicate(&self) -> (r: Self)
        ensures
            r@ == self@,
    ;
}

/// The plain views of some values, in order.
pub open spec fn views_of<T: View>(items: Seq<T>) -> Seq<T::V> {
    items.map_values(|item: T| item@)
}

/// Whether two lists hold the same values in the same order.
pub fn all_alike<T: Alike>(left: &Vec<T>, right: &Vec<T>) -> (r: bool)
    ensures
        r == (views_of(left@) == views_of(right@)),
{
    if left.len() != right.len() {
        assert(views_of(left@).len() != views_of(right@).len());
        return false;
    }
    let mut i: usize = 0;
    while i < left.len()
        invariant
            i <= left@.len(),
            left@.len() == right@.len(),
            forall|j: int| 0 <= j < i ==> #[trigger] left@[j]@ == right@[j]@,
        decreases left@.len() - i,
    {
        if !left[i].alike(&right[i]) {
            assert(views_of(left@)[i as int] != views_of(right@)[i as int]);
            return false;
        }
        i = i + 1;
    }
    assert(views_of(left@) =~= views_of(right@));
    true
}

/// A copy of a list, value for value.
pub fn copy_all<T: Alike>(items: &Vec<T>) -> (r: Vec<T>)
    ensures
        views_of(r@) == views_of(items@),
{
    let mut copied: Vec<T> = Vec::new();
    let mut i: usize = 0;
    while i < items.len()
        invariant
            i <= items@.len(),
            copied@.len() == i,
            forall|j: int| 0 <= j < i ==> #[trigger] copied@[j]@ == items@[j]@,
        decreases items@.len() - i,
    {
        copied.push(items[i].duplicate());
        i = i + 1;
    }
    assert(views_of(copied@) =~= views_of(items@));
    copied
}

/// The views of a list with one more value are the views with that value's view after them.
pub proof fn lemma_views_push<T: View>(items: Seq<T>, item: T)
    ensures
        views_of(items.push(item)) == views_of(items).push(item@),
{
    assert(views_of(items.push(item)) =~= views_of(items).push(item@));
}


/// Whether `prefix` holds the first values of `whole`, in order.
pub open spec fn starts<A>(prefix: Seq<A>, whole: Seq<A>) -> bool {
    prefix.len() <= whole.len() && whole.take(prefix.len() as int) == prefix
}

/// Whether `whole` begins with the values of `prefix`, in order.
pub fn starts_with<T: Alike>(prefix: &Vec<T>, whole: &Vec<T>) -> (r: bool)
    ensures
        r == starts(views_of(prefix@), views_of(whole@)),
{
    if prefix.len() > whole.len() {
        return false;
    }
    let mut i: usize = 0;
    while i < prefix.len()
        invariant
            i <= prefix@.len(),
            prefix@.len() <= whole@.len(),
            forall|j: int| 0 <= j < i ==> #[trigger] prefix@[j]@ == whole@[j]@,
        decreases prefix@.len() - i,
    {
        if !prefix[i].alike(&whole[i]) {
            assert(views_of(whole@).take(prefix@.len() as int)[i as int] != views_of(
                prefix@,
            )[i as int]);
            return false;
        }
        i = i + 1;
    }
    assert(views_of(whole@).take(prefix@.len() as int) =~= views_of(prefix@));
    true
}

} // verus!
