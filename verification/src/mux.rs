//! Fair selection among several event sources.
//!
//! Every scheduling pass looks at all sources. Among those with an item
//! ready, the one that comes first in cyclic order from a moving cursor
//! is served, and the cursor then moves just past it.
use vstd::prelude::*;

verus! {

/// Some source has an item ready.
pub open spec fn any_ready(ready: Seq<bool>) -> bool {
    exists|k: int| 0 <= k < ready.len() && ready[k]
}

/// `choice` is the first ready source in cyclic order starting at `cursor`.
pub open spec fn chosen(ready: Seq<bool>, cursor: int, choice: int) -> bool {
    &&& 0 <= choice < ready.len()
    &&& ready[choice]
    &&& forall|k: int| 0 <= k && cursor <= k < choice ==> !ready[k]
    &&& choice < cursor ==> forall|k: int|
        0 <= k < ready.len() && (k < choice || cursor <= k) ==> !ready[k]
}

/// Where the cursor stands after `choice` was served: just past it,
/// wrapping to the start after the last source.
pub open spec fn cursor_after(count: int, choice: int) -> int {
    if choice + 1 < count {
        choice + 1
    } else {
        0
    }
}

/// Picks the source to serve: the first ready one at or after `cursor`,
/// else the first ready one before it. `None` exactly when nothing is
/// ready.
pub fn select(ready: &Vec<bool>, cursor: usize) -> (choice: Option<usize>)
    ensures
        choice is None <==> !any_ready(ready@),
        choice matches Some(c) ==> chosen(ready@, cursor as int, c as int),
{
    let count = ready.len();
    let mut k: usize = cursor;
    while k < count
        invariant
            cursor <= k,
            count == ready.len(),
            forall|j: int| cursor <= j < k && j < count ==> !ready[j],
        decreases count - k,
    {
        if ready[k] {
            return Some(k);
        }
        k += 1;
    }
    let stop = if cursor < count {
        cursor
    } else {
        count
    };
    let mut k: usize = 0;
    while k < stop
        invariant
            k <= stop <= count,
            stop <= cursor,
            count == ready.len(),
            forall|j: int| cursor <= j < count ==> !ready[j],
            forall|j: int| 0 <= j < k ==> !ready[j],
        decreases stop - k,
    {
        if ready[k] {
            return Some(k);
        }
        k += 1;
    }
    None
}

/// The first ready source at or after `from`, or the number of sources
/// when there is none.
pub open spec fn first_ready_from(ready: Seq<bool>, from: int) -> int
    decreases ready.len() - from,
{
    if from < 0 || from >= ready.len() {
        ready.len() as int
    } else if ready[from] {
        from
    } else {
        first_ready_from(ready, from + 1)
    }
}

/// `first_ready_from` finds a ready source if there is one at or after
/// `from`, and skips only sources that are not ready.
pub proof fn lemma_first_ready_from(ready: Seq<bool>, from: int)
    requires
        0 <= from <= ready.len(),
    ensures
        from <= first_ready_from(ready, from) <= ready.len(),
        first_ready_from(ready, from) < ready.len() ==> ready[first_ready_from(ready, from)],
        forall|k: int| from <= k < first_ready_from(ready, from) ==> !ready[k],
    decreases ready.len() - from,
{
    if from < ready.len() && !ready[from] {
        lemma_first_ready_from(ready, from + 1);
    }
}

/// Whenever some source is ready, one of them is the choice.
pub proof fn lemma_ready_is_chosen(ready: Seq<bool>, cursor: int)
    requires
        any_ready(ready),
    ensures
        exists|choice: int| chosen(ready, cursor, choice),
{
    let start = if cursor < 0 {
        0
    } else if cursor > ready.len() {
        ready.len() as int
    } else {
        cursor
    };
    lemma_first_ready_from(ready, start);
    lemma_first_ready_from(ready, 0);
    let ahead = first_ready_from(ready, start);
    if ahead < ready.len() {
        assert(chosen(ready, cursor, ahead));
    } else {
        assert(chosen(ready, cursor, first_ready_from(ready, 0)));
    }
}

/// The choice is unique: two sources cannot both be first.
pub proof fn lemma_chosen_unique(ready: Seq<bool>, cursor: int, a: int, b: int)
    requires
        chosen(ready, cursor, a),
        chosen(ready, cursor, b),
    ensures
        a == b,
{
}

/// No starvation: right after a source was served, it is served again
/// only if no other source has anything ready.
pub proof fn law_no_starvation(ready: Seq<bool>, served: int, other: int)
    requires
        0 <= served < ready.len(),
        0 <= other < ready.len(),
        other != served,
        ready[other],
    ensures
        !chosen(ready, cursor_after(ready.len() as int, served), served),
{
}

} // verus!
