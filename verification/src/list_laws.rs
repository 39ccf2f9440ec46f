//! What holds of every collection: the laws that relate subscribing,
//! setting, removing, polling and walking away.
use crate::channel::Delivery;
use crate::list::{lemma_observe_wf, lemma_remove_wf, shares, ListModel};
use crate::mux::{any_ready, chosen, lemma_ready_is_chosen};
use crate::register::{law_broadcast_complete, lemma_advance_by, lemma_advance_by_hung_up};
use vstd::prelude::*;

verus! {

/// Snapshot on subscribe, for a collection: a new feed has one source per
/// member, tagged with the member's position, and what is queued for that
/// source is exactly the member's current value.
pub proof fn law_feed_snapshot<T>(list: ListModel<T>, index: int)
    requires
        list.wf(),
        list.has(index),
        index <= u64::MAX,
    ensures
        ({
            let after = list.observe();
            let feed = after.feeds[list.next_feed()];
            let source = feed.sources[index];
            &&& feed.sources.len() == list.len()
            &&& feed.structural.queue.len() == 0
            &&& source.index == index
            &&& source.member == list.order[index]
            &&& after.cells[source.member].pending(source.handle) == seq![list.member(index).value]
            &&& after.source_yields(list.next_feed(), index) == Delivery::Item(
                list.member(index).value,
            )
        }),
{
    assert(list.stands_before(list.order.len() as int, list.order[index]));
}

/// A member's update reaches the feeds observing that member and no other
/// source: after subscribing, setting the member at `index` appends the
/// value behind that source's snapshot and leaves every other member's
/// cell as it was.
pub proof fn law_update_reaches_its_source<T>(list: ListModel<T>, index: int, other: int, value: T)
    requires
        list.wf(),
        list.has(index),
        list.has(other),
        other != index,
    ensures
        ({
            let observed = list.observe();
            let after = observed.set(index, value);
            let feed = after.feeds[list.next_feed()];
            &&& after.feeds == observed.feeds
            &&& after.cells[feed.sources[index].member].pending(feed.sources[index].handle)
                == seq![list.member(index).value, value]
            &&& after.cells[feed.sources[other].member] == observed.cells[feed.sources[other].member]
        }),
{
    let observed = list.observe();
    let after = observed.set(index, value);
    assert(list.stands_before(list.order.len() as int, list.order[index]));
    assert(list.order[index] != list.order[other]);
    assert(seq![list.member(index).value].push(value) =~= seq![list.member(index).value, value]);
}

/// Structural removal ends the member's streams. Once the member at
/// `index` is removed, each subscription on it keeps what was already
/// queued, can never be sent anything again, and reports `Ended` once
/// what was queued has been polled; a later `set` or `push` does not touch the
/// removed cell. Every other cell is left as it was, and a later `set`
/// still reaches the member it is aimed at. Every feed is sent the
/// position.
pub proof fn law_removal_ends_member_stream<T>(
    list: ListModel<T>,
    index: int,
    handle: int,
    later: int,
    value: T,
)
    requires
        list.wf(),
        list.has(index),
        list.member(index).knows(handle),
        list.remove(index).has(later),
    ensures
        ({
            let gone = list.order[index];
            let after = list.remove(index);
            &&& after.len() == list.len() - 1
            &&& !after.stands_before(after.len() as int, gone)
            &&& after.cells[gone].pending(handle) == list.cells[gone].pending(handle)
            &&& !after.cells[gone].channels[handle].sending
            &&& after.cells[gone].advance_by(
                handle,
                list.cells[gone].pending(handle).len(),
            ).yields(handle) == Delivery::<T>::Ended
            &&& after.set(later, value).cells[gone] == after.cells[gone]
            &&& after.push(value).cells[gone] == after.cells[gone]
            &&& forall|a: int|
                0 <= a < list.cells.len() && a != gone ==> #[trigger] after.cells[a] == list.cells[a]
            &&& after.set(later, value).member(later) == after.member(later).set(value)
            &&& forall|f: int|
                list.knows_feed(f) ==> (#[trigger] after.feeds[f]).structural
                    == list.feeds[f].structural.send(index as u64) && after.feeds[f].sources
                    == list.feeds[f].sources
        }),
{
    let gone = list.order[index];
    let after = list.remove(index);
    lemma_remove_wf(list, index);
    let queued = list.cells[gone].pending(handle).len();
    if after.cells[gone].channels[handle].receiving {
        lemma_advance_by(after.cells[gone], handle, queued);
    } else {
        lemma_advance_by_hung_up(after.cells[gone], handle, queued);
    }
    assert forall|q: int| 0 <= q < after.order.len() implies after.order[q] != gone by {
        if q < index {
            assert(after.order[q] == list.order[q]);
        } else {
            assert(after.order[q] == list.order[q + 1]);
        }
    }
}

/// A feed ends only when everything ends: while any source still has an
/// item or may still get one, a poll does not report `Ended`; after the
/// collection is torn down and a feed has nothing queued, it does.
pub proof fn law_feed_ends_with_all_sources<T>(list: ListModel<T>, feed: int)
    requires
        list.wf(),
        list.knows_feed(feed),
    ensures
        list.yields(feed) is Ended <==> list.drained(feed),
        !any_ready(list.close().ready_flags(feed)) ==> list.close().yields(feed) is Ended,
{
    let flags = list.ready_flags(feed);
    let count = list.feeds[feed].sources.len() as int;
    if list.drained(feed) {
        assert forall|slot: int| 0 <= slot < flags.len() implies !flags[slot] by {
            if slot < count {
                assert(list.source_yields(feed, slot) is Ended);
            }
        }
    }
    if any_ready(flags) {
        let slot = choose|slot: int| 0 <= slot < flags.len() && flags[slot];
        if slot < count {
            assert(list.source_yields(feed, slot) is Item);
        }
    }
    let closed = list.close();
    let closed_flags = closed.ready_flags(feed);
    if !any_ready(closed_flags) {
        assert forall|slot: int| 0 <= slot < count implies #[trigger] closed.source_yields(
            feed,
            slot,
        ) is Ended by {
            assert(list.names(list.feeds[feed].sources[slot]));
            assert(!closed_flags[slot]);
        }
        assert(!closed_flags[count]);
    }
}

/// What one feed is about to hand out depends only on the feed's cursor
/// and on the channels it holds.
proof fn lemma_yields_by_channels<T>(before: ListModel<T>, after: ListModel<T>, feed: int)
    requires
        before.wf(),
        before.knows_feed(feed),
        after.knows_feed(feed),
        after.feeds[feed] == before.feeds[feed],
        after.cells.len() == before.cells.len(),
        forall|slot: int|
            0 <= slot < before.feeds[feed].sources.len() ==> after.cells[(
            #[trigger] before.feeds[feed].sources[slot]).member].channels[before.feeds[feed].sources[slot].handle]
                == before.cells[before.feeds[feed].sources[slot].member].channels[before.feeds[feed].sources[slot].handle]
                && after.cells[before.feeds[feed].sources[slot].member].channels.len()
                == before.cells[before.feeds[feed].sources[slot].member].channels.len(),
    ensures
        after.yields(feed) == before.yields(feed),
{
    let sources = before.feeds[feed].sources;
    assert forall|slot: int| 0 <= slot < sources.len() implies #[trigger] after.source_yields(
        feed,
        slot,
    ) == before.source_yields(feed, slot) by {
        assert(before.names(sources[slot]));
    }
    assert forall|slot: int| 0 <= slot < sources.len() implies #[trigger] before.source_yields(
        feed,
        slot,
    ) == after.source_yields(feed, slot) by {
        assert(before.names(sources[slot]));
    }
    assert(after.ready_flags(feed) =~= before.ready_flags(feed));
    assert(after.drained(feed) == before.drained(feed));
    if any_ready(before.ready_flags(feed)) {
        let slot = before.pick(feed);
        lemma_ready_is_chosen(before.ready_flags(feed), before.feeds[feed].cursor);
        assert(chosen(before.ready_flags(feed), before.feeds[feed].cursor, slot));
        if slot < sources.len() {
            assert(before.names(sources[slot]));
        }
    }
}

/// Subscriber independence, for feeds: what a feed is about to hand out
/// is the same whether or not another feed has just been polled or has
/// just walked away. The feed that walked away is over.
pub proof fn law_feed_independence<T>(list: ListModel<T>, feed: int, other: int)
    requires
        list.wf(),
        list.knows_feed(feed),
        list.knows_feed(other),
        feed != other,
    ensures
        list.unsubscribe(feed).yields(other) == list.yields(other),
        list.advance(feed).yields(other) == list.yields(other),
        list.unsubscribe(feed).yields(feed) is Ended,
{
    let mine = list.feeds[other].sources;
    let theirs = list.feeds[feed].sources;
    let left = list.unsubscribe(feed);
    assert forall|slot: int| 0 <= slot < mine.len() implies !list.held_by(
        feed,
        theirs.len() as int,
        (#[trigger] mine[slot]).member,
        mine[slot].handle,
    ) by {
        if list.held_by(feed, theirs.len() as int, mine[slot].member, mine[slot].handle) {
            let k = choose|k: int|
                0 <= k < theirs.len() && theirs[k].member == mine[slot].member && theirs[k].handle
                    == mine[slot].handle;
            assert(list.has_source(feed, k) && list.has_source(other, slot));
            assert(shares(list.feeds[feed].sources[k], list.feeds[other].sources[slot]));
        }
    }
    assert forall|slot: int| 0 <= slot < mine.len() implies left.cells[(#[trigger] mine[slot]).member].channels[mine[slot].handle]
        == list.cells[mine[slot].member].channels[mine[slot].handle] by {
        assert(list.names(list.feeds[other].sources[slot]));
    }
    assert forall|slot: int| 0 <= slot < mine.len() implies left.cells[(#[trigger] mine[slot]).member].channels.len()
        == list.cells[mine[slot].member].channels.len() by {
        assert(list.names(list.feeds[other].sources[slot]));
    }
    lemma_yields_by_channels(list, left, other);

    let polled = list.advance(feed);
    if any_ready(list.ready_flags(feed)) {
        let served = list.pick(feed);
        lemma_ready_is_chosen(list.ready_flags(feed), list.feeds[feed].cursor);
        assert(chosen(list.ready_flags(feed), list.feeds[feed].cursor, served));
        if served < theirs.len() {
            assert(list.names(list.feeds[feed].sources[served]));
            assert forall|slot: int| 0 <= slot < mine.len() implies polled.cells[(#[trigger] mine[slot]).member].channels[mine[slot].handle]
                == list.cells[mine[slot].member].channels[mine[slot].handle] && polled.cells[mine[slot].member].channels.len()
                == list.cells[mine[slot].member].channels.len() by {
                assert(list.names(list.feeds[other].sources[slot]));
                assert(list.has_source(feed, served) && list.has_source(other, slot));
                assert(!shares(list.feeds[feed].sources[served], list.feeds[other].sources[slot]));
            }
        }
    }
    lemma_yields_by_channels(list, polled, other);

    assert forall|slot: int| 0 <= slot < theirs.len() implies #[trigger] left.source_yields(
        feed,
        slot,
    ) is Ended by {
        assert(list.names(list.feeds[feed].sources[slot]));
        assert(list.held_by(feed, theirs.len() as int, theirs[slot].member, theirs[slot].handle));
    }
    assert(left.drained(feed));
    assert forall|slot: int| 0 <= slot < left.ready_flags(feed).len() implies !left.ready_flags(
        feed,
    )[slot] by {
        if slot < theirs.len() {
            assert(left.source_yields(feed, slot) is Ended);
        }
    }
}

/// Setting one member several times is setting its cell several times;
/// nothing else changes.
pub proof fn lemma_set_all_member<T>(list: ListModel<T>, index: int, values: Seq<T>)
    requires
        list.wf(),
        list.has(index),
    ensures
        list.set_all(index, values) == (ListModel {
            cells: list.cells.update(list.order[index], list.member(index).set_all(values)),
            ..list
        }),
    decreases values.len(),
{
    let member = list.order[index];
    if values.len() == 0 {
        assert(list.cells.update(member, list.cells[member]) =~= list.cells);
    } else {
        lemma_set_all_member(list, index, values.drop_last());
        let before = list.set_all(index, values.drop_last());
        assert(before.set(index, values.last()).cells =~= list.cells.update(
            member,
            list.member(index).set_all(values),
        ));
    }
}

/// Broadcast completeness, for a collection: after a feed was created,
/// the values set on a member are queued for the feed's source of that
/// member behind its snapshot, each once, in the order they were set.
pub proof fn law_member_broadcast_complete<T>(list: ListModel<T>, index: int, values: Seq<T>)
    requires
        list.wf(),
        list.has(index),
    ensures
        ({
            let after = list.observe().set_all(index, values);
            let source = after.feeds[list.next_feed()].sources[index];
            &&& after.feeds == list.observe().feeds
            &&& after.cells[source.member].pending(source.handle) == seq![list.member(index).value]
                + values
        }),
{
    assert(list.stands_before(list.order.len() as int, list.order[index]));
    lemma_observe_wf(list);
    lemma_set_all_member(list.observe(), index, values);
    law_broadcast_complete(list.member(index), values);
}

} // verus!
