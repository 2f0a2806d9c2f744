//! Layout state for status-bar nodes kept per display, the property
//! resolver that updates them, and the request dispatch of the control
//! protocol.

pub mod bridge;
pub mod closure;
pub mod error;
pub mod ipc;
pub mod node;
pub mod props;
pub mod resolve;
pub mod state;
pub mod text;
pub mod wf;

use vstd::prelude::*;
use crate::bridge::{DisplayInfo, StateChangeEvent, StateChangeHandler};
use crate::state::{BarState, Layout, migrated, with_migrated};

verus! {

/// The id of the first display marked main, or 0 where none is.
pub open spec fn main_display_spec(ds: Seq<DisplayInfo>) -> u32
    decreases ds.len(),
{
    if ds.len() == 0 {
        0
    } else if ds[0].is_main {
        ds[0].id
    } else {
        main_display_spec(ds.drop_first())
    }
}

/// The id of the first display marked main, or 0 where none is.
pub fn main_display_id(displays: &Vec<DisplayInfo>) -> (r: u32)
    ensures
        r == main_display_spec(displays@),
{
    let mut i: usize = 0;
    assert(displays@.skip(0) =~= displays@);
    while i < displays.len()
        invariant
            i <= displays@.len(),
            main_display_spec(displays@) == main_display_spec(displays@.skip(i as int)),
        decreases displays@.len() - i,
    {
        assert(displays@.skip(i as int).drop_first() =~= displays@.skip(i + 1));
        if displays[i].is_main {
            return displays[i].id;
        }
        i = i + 1;
    }
    assert(displays@.skip(i as int).len() == 0);
    0
}

/// Hands `event` to the handler, if one is registered; what the handler
/// reports is ignored.
pub fn notify<H: StateChangeHandler + ?Sized>(handler: Option<&H>, event: StateChangeEvent) {
    if let Some(h) = handler {
        let _ = h.on_state_change(event);
    }
}

/// Whether some display of `ds` has id `id`.
pub open spec fn has_display(ds: Seq<DisplayInfo>, id: u32) -> bool {
    exists|i: int| 0 <= i < ds.len() && ds[i].id == id
}

/// The ids of the displays of `old` that `new` lacks, in order.
pub open spec fn removed_ids(old: Seq<DisplayInfo>, new: Seq<DisplayInfo>) -> Seq<u32>
    decreases old.len(),
{
    if old.len() == 0 {
        Seq::empty()
    } else if has_display(new, old.last().id) {
        removed_ids(old.drop_last(), new)
    } else {
        removed_ids(old.drop_last(), new).push(old.last().id)
    }
}

/// One move event per node of `ns`, from display `from` to display `to`.
pub open spec fn move_events(ns: Seq<crate::node::BarNode>, from: u32, to: u32) -> Seq<
    StateChangeEvent,
> {
    Seq::new(
        ns.len(),
        |k: int| StateChangeEvent::NodeMoved { old_display: from, new_display: to, node: ns[k] },
    )
}

/// The layout once the nodes of each display of `ids` have moved to
/// display `to`, one display after another, and the move events.
pub open spec fn migrate_all(l: Layout, ids: Seq<u32>, to: u32) -> (Layout, Seq<StateChangeEvent>)
    decreases ids.len(),
{
    if ids.len() == 0 {
        (l, Seq::empty())
    } else {
        let (l0, ev) = migrate_all(l, ids.drop_last(), to);
        let d = ids.last();
        (with_migrated(l0, d, to), ev + move_events(migrated(l0, d, to), d, to))
    }
}

/// Records `displays` as the known displays. The nodes of each display
/// that has gone move to the new main display, if there is one (see
/// `BarState::migrate_nodes`). Returns one move event per moved node, for
/// the caller to deliver once it no longer holds the store.
pub fn set_displays(known: &mut Vec<DisplayInfo>, state: &mut BarState, displays: Vec<DisplayInfo>) -> (events: Vec<StateChangeEvent>)
    requires
        old(state).wf(),
    ensures
        final(state).wf(),
        final(known)@ == displays@,
        ({
            let gone = removed_ids(old(known)@, displays@);
            let main = main_display_spec(displays@);
            if gone.len() == 0 || main == 0 {
                final(state)@ == old(state)@ && events@.len() == 0
            } else {
                (final(state)@, events@) == migrate_all(old(state)@, gone, main)
            }
        }),
{
    let mut previous = displays;
    std::mem::swap(known, &mut previous);
    let mut removed: Vec<u32> = Vec::new();
    let mut i: usize = 0;
    while i < previous.len()
        invariant
            i <= previous@.len(),
            removed@ == removed_ids(previous@.take(i as int), known@),
        decreases previous@.len() - i,
    {
        let id = previous[i].id;
        let mut found = false;
        let mut j: usize = 0;
        while j < known.len()
            invariant
                j <= known@.len(),
                found == exists|x: int| 0 <= x < j && known@[x].id == id,
            decreases known@.len() - j,
        {
            if known[j].id == id {
                found = true;
            }
            j = j + 1;
        }
        assert(previous@.take(i + 1).drop_last() =~= previous@.take(i as int));
        if !found {
            removed.push(id);
        }
        i = i + 1;
    }
    assert(previous@.take(i as int) =~= previous@);
    let mut events: Vec<StateChangeEvent> = Vec::new();
    if removed.len() == 0 {
        return events;
    }
    let main = main_display_id(known);
    if main == 0 {
        return events;
    }
    let ghost l = state@;
    let mut r: usize = 0;
    while r < removed.len()
        invariant
            r <= removed@.len(),
            state.wf(),
            (state@, events@) == migrate_all(l, removed@.take(r as int), main),
        decreases removed@.len() - r,
    {
        let from = removed[r];
        let ghost before = events@;
        let moved = state.migrate_nodes(from, main);
        let mut k: usize = 0;
        while k < moved.len()
            invariant
                k <= moved@.len(),
                events@ == before + move_events(moved@, from, main).take(k as int),
            decreases moved@.len() - k,
        {
            events.push(
                StateChangeEvent::NodeMoved {
                    old_display: from,
                    new_display: main,
                    node: moved[k].clone(),
                },
            );
            assert(events@ =~= before + move_events(moved@, from, main).take(k + 1));
            k = k + 1;
        }
        assert(removed@.take(r + 1).drop_last() =~= removed@.take(r as int));
        assert(move_events(moved@, from, main).take(k as int) =~= move_events(moved@, from, main));
        r = r + 1;
    }
    assert(removed@.take(r as int) =~= removed@);
    events
}

} // verus!
