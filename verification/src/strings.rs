//! Small helpers on lists of strings, compared by their characters.

use vstd::prelude::*;

verus! {

/// The position of the first string of `list` that reads `item`, if any.
pub fn position_in(list: &Vec<String>, item: &String) -> (found: Option<usize>)
    ensures
        found is Some <==> list.deep_view().contains(item@),
        found matches Some(i) ==> i < list.len() && list.deep_view()[i as int] == item@ && forall|j: int|
            0 <= j < i ==> list.deep_view()[j] != item@,
{
    let mut i: usize = 0;
    while i < list.len()
        invariant
            i <= list.len(),
            forall|j: int| 0 <= j < i ==> list.deep_view()[j] != item@,
        decreases list.len() - i,
    {
        if list[i] == *item {
            assert(list.deep_view()[i as int] == item@);
            return Some(i);
        }
        i = i + 1;
    }
    None
}

/// A copy of `list`.
pub fn clone_strings(list: &Vec<String>) -> (copy: Vec<String>)
    ensures
        copy@ == list@,
        copy.deep_view() == list.deep_view(),
{
    let mut copy: Vec<String> = Vec::new();
    let mut i: usize = 0;
    while i < list.len()
        invariant
            i <= list.len(),
            copy@ == list@.take(i as int),
        decreases list.len() - i,
    {
        copy.push(list[i].clone());
        assert(copy@ =~= list@.take(i + 1));
        i = i + 1;
    }
    assert(list@.take(list.len() as int) =~= list@);
    assert(copy.deep_view() =~= list.deep_view());
    copy
}

/// In a list without repetitions an item is found at one position only.
pub proof fn lemma_unique_position(list: Seq<Seq<char>>, i: int)
    requires
        list.no_duplicates(),
        0 <= i < list.len(),
    ensures
        list.contains(list[i]),
        list.index_of(list[i]) == i,
{
    assert(list.contains(list[i]));
    let j = list.index_of(list[i]);
    assert(0 <= j < list.len() && list[j] == list[i]);
}

} // verus!
