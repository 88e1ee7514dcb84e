//! The free set as it is stored: a sequence of handles in strictly ascending order.

use vstd::prelude::*;

verus! {

/// Each element of `list` is smaller than every later one.
pub(crate) open spec fn ascending(list: Seq<usize>) -> bool {
    forall|i: int, j: int| 0 <= i < j < list.len() ==> list[i] < list[j]
}

/// The set of the values that occur in `list`.
pub(crate) open spec fn members(list: Seq<usize>) -> Set<nat> {
    Set::new(|handle: nat| exists|i: int| 0 <= i < list.len() && #[trigger] list[i] == handle)
}

/// An element of a list is one of its members.
pub(crate) proof fn lemma_element_is_member(list: Seq<usize>, i: int)
    requires
        0 <= i < list.len(),
    ensures
        members(list).contains(list[i] as nat),
{
}

/// Inserting a value anywhere in a list adds it to the members.
pub(crate) proof fn lemma_members_insert(list: Seq<usize>, pos: int, value: usize)
    requires
        0 <= pos <= list.len(),
    ensures
        members(list.insert(pos, value)) == members(list).insert(value as nat),
{
    let longer = list.insert(pos, value);
    assert forall|handle: nat| members(longer).contains(handle) implies members(list).insert(
        value as nat,
    ).contains(handle) by {
        let i = choose|i: int| 0 <= i < longer.len() && #[trigger] longer[i] == handle;
        if i < pos {
            assert(list[i] == handle);
        } else if i > pos {
            assert(list[i - 1] == handle);
        }
    }
    assert forall|handle: nat| members(list).insert(value as nat).contains(handle) implies members(
        longer,
    ).contains(handle) by {
        if handle == value as nat {
            assert(longer[pos] == handle);
        } else {
            let i = choose|i: int| 0 <= i < list.len() && #[trigger] list[i] == handle;
            if i < pos {
                assert(longer[i] == handle);
            } else {
                assert(longer[i + 1] == handle);
            }
        }
    }
    assert(members(longer) =~= members(list).insert(value as nat));
}

/// Removing an element from an ascending list removes it from the members.
pub(crate) proof fn lemma_members_remove(list: Seq<usize>, pos: int)
    requires
        ascending(list),
        0 <= pos < list.len(),
    ensures
        members(list.remove(pos)) == members(list).remove(list[pos] as nat),
        ascending(list.remove(pos)),
{
    let shorter = list.remove(pos);
    assert forall|handle: nat| members(shorter).contains(handle) implies members(list).remove(
        list[pos] as nat,
    ).contains(handle) by {
        let i = choose|i: int| 0 <= i < shorter.len() && #[trigger] shorter[i] == handle;
        if i < pos {
            assert(list[i] == handle);
        } else {
            assert(list[i + 1] == handle);
        }
    }
    assert forall|handle: nat| members(list).remove(list[pos] as nat).contains(handle) implies members(
        shorter,
    ).contains(handle) by {
        let i = choose|i: int| 0 <= i < list.len() && #[trigger] list[i] == handle;
        if i < pos {
            assert(shorter[i] == handle);
        } else {
            assert(shorter[i - 1] == handle);
        }
    }
    assert(members(shorter) =~= members(list).remove(list[pos] as nat));
}

/// The first element of a non-empty ascending list is the smallest member.
pub(crate) proof fn lemma_first_is_lowest(list: Seq<usize>)
    requires
        ascending(list),
        list.len() > 0,
    ensures
        members(list).contains(list[0] as nat),
        forall|handle: nat| members(list).contains(handle) ==> list[0] <= handle,
{
}

} // verus!
