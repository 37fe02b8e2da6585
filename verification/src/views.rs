//! Views of what stands in options and sequences.
use vstd::prelude::*;

verus! {

/// The view of what an option holds.
pub open spec fn option_view<T: View>(option: Option<T>) -> Option<T::V> {
    match option {
        Some(value) => Some(value@),
        None => None,
    }
}

/// The views of the items of a sequence.
pub open spec fn seq_view<T: View>(items: Seq<T>) -> Seq<T::V> {
    items.map_values(|item: T| item@)
}

/// Own each of the strings.
pub(crate) fn strings(items: &[&str]) -> (owned: Vec<String>)
    ensures
        seq_view(owned@) == seq_view(items@),
{
    let mut owned: Vec<String> = Vec::new();
    let mut i: usize = 0;
    while i < items.len()
        invariant
            i <= items@.len(),
            owned@.len() == i,
            forall|j: int| 0 <= j < i ==> (#[trigger] owned@[j])@ == items@[j]@,
        decreases items.len() - i,
    {
        owned.push(items[i].to_owned());
        i = i + 1;
    }
    assert(seq_view(owned@) =~= seq_view(items@));
    owned
}

/// A copy of each of the strings.
pub(crate) fn copies(items: &[String]) -> (copied: Vec<String>)
    ensures
        seq_view(copied@) == seq_view(items@),
{
    let mut copied: Vec<String> = Vec::new();
    let mut i: usize = 0;
    while i < items.len()
        invariant
            i <= items@.len(),
            copied@.len() == i,
            forall|j: int| 0 <= j < i ==> (#[trigger] copied@[j])@ == items@[j]@,
        decreases items.len() - i,
    {
        copied.push(items[i].clone());
        i = i + 1;
    }
    assert(seq_view(copied@) =~= seq_view(items@));
    copied
}

/// The view of a list has as many items, each the view of the item at its place.
pub proof fn law_seq_view<T: View>(items: Seq<T>, i: int)
    ensures
        seq_view(items).len() == items.len(),
        0 <= i < items.len() ==> seq_view(items)[i] == items[i]@,
{
}

/// The view of what is there is there, and nothing else is.
pub proof fn law_option_view<T: View>(value: T)
    ensures
        option_view(Some(value)) == Some(value@),
        option_view(None::<T>) is None,
{
}

} // verus!
