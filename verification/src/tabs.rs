//! The order of the open documents' tabs and which of them is active, as tabs are dragged and
//! closed.
use vstd::prelude::*;

verus! {

/// Where a tab dragged from `from` and dropped on tab `to` is put.
pub open spec fn insert_slot(from: int, to: int) -> int {
    if to > from {
        to - 1
    } else {
        to
    }
}

/// The index of the active tab after the tab at `from` moved to `slot`.
pub open spec fn active_after_move(active: int, from: int, slot: int) -> int {
    if active == from {
        slot
    } else if from < active && slot >= active {
        active - 1
    } else if from > active && slot <= active {
        active + 1
    } else {
        active
    }
}

/// Moves the tab at `from` to where it was dropped (on tab `to`) and returns the index of the
/// active tab afterwards. Nothing changes when `from == to` or `from` is not a tab.
pub fn move_tab<T>(tabs: &mut Vec<T>, from: usize, to: usize, active: usize) -> (r: usize)
    requires
        to < old(tabs).len(),
    ensures
        from != to && from < old(tabs).len() ==> {
            let slot = insert_slot(from as int, to as int);
            &&& final(tabs)@ == old(tabs)@.remove(from as int).insert(slot, old(tabs)@[from as int])
            &&& r == active_after_move(active as int, from as int, slot)
        },
        !(from != to && from < old(tabs).len()) ==> final(tabs)@ == old(tabs)@ && r == active,
        active < old(tabs).len() ==> r < final(tabs).len() && final(tabs)@[r as int] == old(
            tabs,
        )@[active as int],
{
    if from == to || from >= tabs.len() {
        return active;
    }
    let ghost before = tabs@;
    let tab = tabs.remove(from);
    let slot = if to > from {
        to - 1
    } else {
        to
    };
    tabs.insert(slot, tab);
    let r = if active == from {
        slot
    } else if from < active && slot >= active {
        active - 1
    } else if from > active && slot <= active {
        active + 1
    } else {
        active
    };
    proof {
        if active < before.len() {
            let mid = before.remove(from as int);
            assert(tabs@ == mid.insert(slot as int, before[from as int]));
            if active != from {
                let pos = if active < from { active as int } else { active - 1 };
                assert(mid[pos] == before[active as int]);
                if slot as int <= pos {
                    assert(tabs@[pos + 1] == mid[pos]);
                } else {
                    assert(tabs@[pos] == mid[pos]);
                }
            }
        }
    }
    r
}

/// Closes the tab at `idx` and returns the index of the active tab afterwards: the same index,
/// moved back onto the last tab when it is past the end.
pub fn close_tab<T>(tabs: &mut Vec<T>, idx: usize, active: usize) -> (r: usize)
    requires
        idx < old(tabs).len(),
    ensures
        final(tabs)@ == old(tabs)@.remove(idx as int),
        r == if final(tabs).len() > 0 && active >= final(tabs).len() {
            (final(tabs).len() - 1) as usize
        } else {
            active
        },
{
    tabs.remove(idx);
    if tabs.len() > 0 && active >= tabs.len() {
        tabs.len() - 1
    } else {
        active
    }
}

} // verus!
