//! What a consumer that mirrors a collection as a row of rendered items
//! has to do for each event it receives.
use crate::list::{Event, React};
use vstd::prelude::*;

verus! {

/// One change to the rendered row.
#[derive(Debug, Clone, Copy, PartialEq, Eq, Structural)]
pub enum Patch {
    /// Replace the content of the item at this slot.
    Rewrite(usize),
    /// Add an item at the end of the row and give it the event's content.
    Append,
    /// Take the item at this slot out; later items move down by one.
    Detach(usize),
}

/// The change that `event` asks of a row of `len` items, as a function of
/// the event's kind and position alone.
pub open spec fn planned<T: React>(len: nat, event: Event<T>) -> Option<Patch> {
    match event {
        Event::Update { index, .. } => if index < len {
            Some(Patch::Rewrite(index as usize))
        } else {
            Some(Patch::Append)
        },
        Event::Remove(index) => if index < len {
            Some(Patch::Detach(index as usize))
        } else {
            None
        },
    }
}

/// Decides what to do to a row of `len` items on `event`. An update for a
/// slot the row has rewrites it; an update for a slot it lacks appends;
/// a removal detaches its slot. A removal of a slot the row lacks has no
/// answer.
pub fn plan<T: React>(len: usize, event: &Event<T>) -> (patch: Option<Patch>)
    ensures
        patch == planned(len as nat, *event),
        patch matches Some(Patch::Rewrite(slot)) ==> slot < len,
        patch matches Some(Patch::Detach(slot)) ==> slot < len,
{
    match event {
        Event::Update { index, .. } => {
            if *index < len as u64 {
                Some(Patch::Rewrite(*index as usize))
            } else {
                Some(Patch::Append)
            }
        },
        Event::Remove(index) => {
            if *index < len as u64 {
                Some(Patch::Detach(*index as usize))
            } else {
                None
            }
        },
    }
}

} // verus!
