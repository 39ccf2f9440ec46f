//! The reactive ordered collection: an ordered sequence of reactive cells,
//! observable as one merged feed of member updates and removals.
use crate::channel::{Channel, ChannelModel, Delivery};
use crate::mux::{any_ready, chosen, cursor_after, select};
use crate::register::{CellModel, ChannelRegister};
use vstd::prelude::*;

verus! {

/// Something observable, with the kind of event its observers receive.
pub trait React {
    type Event;
}

/// What an observer of a collection receives.
#[derive(Debug)]
pub enum Event<T: React> {
    /// The member that stood at `index` when the subscription was made
    /// reported `event`.
    Update { index: u64, event: T::Event },
    /// The member standing at this position at removal time is gone.
    Remove(u64),
}

/// An observable ordered collection of observable members.
pub trait List<T: React>: React<Event = Event<T>> {
}

impl<T> React for ChannelRegister<T> {
    type Event = T;
}

impl<T> React for ChannelList<T> {
    type Event = Event<ChannelRegister<T>>;
}

impl<T> List<ChannelRegister<T>> for ChannelList<T> {
}

/// A structural change was asked for at a position that does not exist.
#[derive(Debug, Clone, Copy, PartialEq, Eq)]
pub struct OutOfRange {
    /// The position asked for.
    pub index: usize,
    /// The number of members at the time.
    pub len: usize,
}

/// One member stream inside a feed.
pub struct SourceModel {
    /// Identity of the member's cell; stable across removals.
    pub member: int,
    /// The subscription held on that cell.
    pub handle: int,
    /// The member's position when the feed was created.
    pub index: u64,
}

/// Two sources hold the same subscription of the same cell.
pub open spec fn shares(a: SourceModel, b: SourceModel) -> bool {
    a.member == b.member && a.handle == b.handle
}

/// Mathematical state of one subscription to a collection.
pub struct FeedModel {
    /// One source per member present when the feed was created.
    pub sources: Seq<SourceModel>,
    /// Removals announced and not yet received.
    pub structural: ChannelModel<u64>,
    /// Where the next fair scan starts. Slot `sources.len()` stands for
    /// the structural channel.
    pub cursor: int,
}

/// Mathematical state of a collection.
pub struct ListModel<T> {
    /// Every cell ever created, by identity. Removed members stay here,
    /// closed, so that what was queued for their observers stays readable.
    pub cells: Seq<CellModel<T>>,
    /// Identity of the member at each position.
    pub order: Seq<int>,
    /// Every subscription ever made, by handle.
    pub feeds: Seq<FeedModel>,
}

impl<T> ListModel<T> {
    /// Positions name existing cells, no cell stands at two positions,
    /// every source of every feed names an existing subscription, and no
    /// subscription is held by two sources.
    pub open spec fn wf(self) -> bool {
        &&& self.exclusive()
        &&& forall|p: int| 0 <= p < self.order.len() ==> 0 <= #[trigger] self.order[p] < self.cells.len()
        &&& forall|p: int, q: int|
            0 <= p < q < self.order.len() ==> #[trigger] self.order[p] != #[trigger] self.order[q]
        &&& forall|f: int, k: int|
            0 <= f < self.feeds.len() && 0 <= k < self.feeds[f].sources.len() ==> self.names(
                #[trigger] self.feeds[f].sources[k],
            )
    }

    /// `feed` has a member source at `slot`.
    pub open spec fn has_source(self, feed: int, slot: int) -> bool {
        0 <= feed < self.feeds.len() && 0 <= slot < self.feeds[feed].sources.len()
    }

    /// No two sources, of one feed or of two, hold the same subscription
    /// of the same cell.
    pub open spec fn exclusive(self) -> bool {
        forall|f: int, k: int, g: int, j: int|
            self.has_source(f, k) && self.has_source(g, j) && (f != g || k != j) ==> !shares(
                #[trigger] self.feeds[f].sources[k],
                #[trigger] self.feeds[g].sources[j],
            )
    }

    /// `source` names a subscription of an existing cell.
    pub open spec fn names(self, source: SourceModel) -> bool {
        &&& 0 <= source.member < self.cells.len()
        &&& self.cells[source.member].knows(source.handle)
    }

    /// The collection holding `values`, in order, nobody observing.
    pub open spec fn from_values(values: Seq<T>) -> Self {
        ListModel {
            cells: Seq::new(values.len(), |i: int| CellModel::fresh(values[i])),
            order: Seq::new(values.len(), |i: int| i),
            feeds: Seq::empty(),
        }
    }

    /// Number of members.
    pub open spec fn len(self) -> nat {
        self.order.len()
    }

    /// `index` is a position of the collection.
    pub open spec fn has(self, index: int) -> bool {
        0 <= index < self.order.len()
    }

    /// The cell of the member at `index`.
    pub open spec fn member(self, index: int) -> CellModel<T> {
        self.cells[self.order[index]]
    }

    /// `member` stands at one of the first `bound` positions.
    pub open spec fn stands_before(self, bound: int, member: int) -> bool {
        exists|q: int| 0 <= q < bound && q < self.order.len() && self.order[q] == member
    }

    /// The handle the next feed will get.
    pub open spec fn next_feed(self) -> int {
        self.feeds.len() as int
    }

    /// The feed a new subscription starts with: one source per member,
    /// tagged with the member's present position, and an empty structural
    /// channel.
    pub open spec fn new_feed(self) -> FeedModel {
        FeedModel {
            sources: Seq::new(
                self.order.len(),
                |p: int|
                    SourceModel {
                        member: self.order[p],
                        handle: self.member(p).next_handle(),
                        index: p as u64,
                    },
            ),
            structural: ChannelModel::opened(),
            cursor: 0,
        }
    }

    /// Subscribes to the whole collection: every present member gains one
    /// subscription, seeded with its value, and a new feed gathers them.
    pub open spec fn observe(self) -> Self {
        ListModel {
            cells: Seq::new(
                self.cells.len(),
                |a: int|
                    if self.stands_before(self.order.len() as int, a) {
                        self.cells[a].observe()
                    } else {
                        self.cells[a]
                    },
            ),
            order: self.order,
            feeds: self.feeds.push(self.new_feed()),
        }
    }

    /// `feed` names a subscription of this collection.
    pub open spec fn knows_feed(self, feed: int) -> bool {
        0 <= feed < self.feeds.len()
    }

    /// What the `slot`-th member source of `feed` would hand out.
    pub open spec fn source_yields(self, feed: int, slot: int) -> Delivery<T> {
        let source = self.feeds[feed].sources[slot];
        self.cells[source.member].yields(source.handle)
    }

    /// Which sources of `feed` have an item ready. There is one slot per
    /// member source and a last one for the structural channel.
    pub open spec fn ready_flags(self, feed: int) -> Seq<bool> {
        let count = self.feeds[feed].sources.len();
        Seq::new(
            count + 1,
            |slot: int|
                if slot < count {
                    self.source_yields(feed, slot) is Item
                } else {
                    self.feeds[feed].structural.ready()
                },
        )
    }

    /// Every source of `feed` is over for good.
    pub open spec fn drained(self, feed: int) -> bool {
        &&& forall|slot: int|
            0 <= slot < self.feeds[feed].sources.len() ==> #[trigger] self.source_yields(feed, slot) is Ended
        &&& self.feeds[feed].structural.ended()
    }

    /// The slot that the fair scan of `feed` serves next.
    pub open spec fn pick(self, feed: int) -> int {
        choose|slot: int| chosen(self.ready_flags(feed), self.feeds[feed].cursor, slot)
    }

    /// The event that serving `slot` of `feed` hands out.
    pub open spec fn event_at(self, feed: int, slot: int) -> Event<ChannelRegister<T>> {
        if slot < self.feeds[feed].sources.len() {
            let source = self.feeds[feed].sources[slot];
            Event::Update {
                index: source.index,
                event: self.cells[source.member].pending(source.handle)[0],
            }
        } else {
            Event::Remove(self.feeds[feed].structural.queue[0])
        }
    }

    /// The collection after `slot` of `feed` was served: that one source
    /// loses its oldest item and the cursor moves just past the slot.
    pub open spec fn serve(self, feed: int, slot: int) -> Self {
        let old_feed = self.feeds[feed];
        let count = old_feed.sources.len() as int;
        let cursor = cursor_after(count + 1, slot);
        if slot < count {
            let source = old_feed.sources[slot];
            ListModel {
                cells: self.cells.update(
                    source.member,
                    self.cells[source.member].advance(source.handle),
                ),
                feeds: self.feeds.update(feed, FeedModel { cursor, ..old_feed }),
                ..self
            }
        } else {
            ListModel {
                feeds: self.feeds.update(
                    feed,
                    FeedModel { cursor, structural: old_feed.structural.advance(), ..old_feed },
                ),
                ..self
            }
        }
    }

    /// What the next poll of `feed` hands out: the event of the fairly
    /// chosen ready source; `Ended` once every source is over (or for a
    /// handle that names no feed); `Pending` otherwise.
    pub open spec fn yields(self, feed: int) -> Delivery<Event<ChannelRegister<T>>> {
        if !self.knows_feed(feed) {
            Delivery::Ended
        } else if any_ready(self.ready_flags(feed)) {
            Delivery::Item(self.event_at(feed, self.pick(feed)))
        } else if self.drained(feed) {
            Delivery::Ended
        } else {
            Delivery::Pending
        }
    }

    /// The collection after one poll of `feed`.
    pub open spec fn advance(self, feed: int) -> Self {
        if self.knows_feed(feed) && any_ready(self.ready_flags(feed)) {
            self.serve(feed, self.pick(feed))
        } else {
            self
        }
    }

    /// Some source of `feed` holds subscription `handle` of cell `member`.
    pub open spec fn held_by(self, feed: int, bound: int, member: int, handle: int) -> bool {
        exists|k: int|
            0 <= k < bound && k < self.feeds[feed].sources.len() && self.feeds[feed].sources[k].member
                == member && self.feeds[feed].sources[k].handle == handle
    }

    /// The subscriber behind `feed` walks away: each channel the feed
    /// holds, structural one included, loses its receiving end.
    pub open spec fn unsubscribe(self, feed: int) -> Self {
        if self.knows_feed(feed) {
            let count = self.feeds[feed].sources.len() as int;
            ListModel {
                cells: Seq::new(
                    self.cells.len(),
                    |a: int|
                        CellModel {
                            value: self.cells[a].value,
                            channels: Seq::new(
                                self.cells[a].channels.len(),
                                |h: int|
                                    if self.held_by(feed, count, a, h) {
                                        self.cells[a].channels[h].hang_up()
                                    } else {
                                        self.cells[a].channels[h]
                                    },
                            ),
                        },
                ),
                feeds: self.feeds.update(
                    feed,
                    FeedModel {
                        structural: self.feeds[feed].structural.hang_up(),
                        ..self.feeds[feed]
                    },
                ),
                ..self
            }
        } else {
            self
        }
    }

    /// The collection is torn down: no members are left, every cell is
    /// closed and so is every structural channel.
    pub open spec fn close(self) -> Self {
        ListModel {
            cells: Seq::new(self.cells.len(), |a: int| self.cells[a].close()),
            order: Seq::empty(),
            feeds: Seq::new(
                self.feeds.len(),
                |f: int|
                    FeedModel { structural: self.feeds[f].structural.close(), ..self.feeds[f] },
            ),
        }
    }

    /// Appends a member. No feed changes.
    pub open spec fn push(self, value: T) -> Self {
        ListModel {
            cells: self.cells.push(CellModel::fresh(value)),
            order: self.order.push(self.cells.len() as int),
            feeds: self.feeds,
        }
    }

    /// Sets the member at `index`, which broadcasts to that member's
    /// observers and to nobody else.
    pub open spec fn set(self, index: int, value: T) -> Self {
        ListModel {
            cells: self.cells.update(self.order[index], self.member(index).set(value)),
            ..self
        }
    }

    /// Applies `set` at `index` for each of `values`, first to last.
    pub open spec fn set_all(self, index: int, values: Seq<T>) -> Self
        decreases values.len(),
    {
        if values.len() == 0 {
            self
        } else {
            self.set_all(index, values.drop_last()).set(index, values.last())
        }
    }

    /// Removes the member at `index`: its cell is closed, later members
    /// move down by one, and every feed is sent the position.
    pub open spec fn remove(self, index: int) -> Self {
        ListModel {
            cells: self.cells.update(self.order[index], self.member(index).close()),
            order: self.order.remove(index),
            feeds: Seq::new(
                self.feeds.len(),
                |f: int|
                    FeedModel {
                        structural: self.feeds[f].structural.send(index as u64),
                        ..self.feeds[f]
                    },
            ),
        }
    }
}

/// One member stream inside a feed.
#[derive(Debug)]
pub struct Source {
    member: usize,
    handle: usize,
    index: u64,
}

impl View for Source {
    type V = SourceModel;

    closed spec fn view(&self) -> SourceModel {
        SourceModel { member: self.member as int, handle: self.handle as int, index: self.index }
    }
}

/// One subscription to a collection.
#[derive(Debug)]
pub struct Feed {
    sources: Vec<Source>,
    structural: Channel<u64>,
    cursor: usize,
}

impl View for Feed {
    type V = FeedModel;

    closed spec fn view(&self) -> FeedModel {
        FeedModel {
            sources: Seq::new(self.sources.len() as nat, |k: int| self.sources[k]@),
            structural: self.structural@,
            cursor: self.cursor as int,
        }
    }
}

/// A reactive ordered collection of channel-fed cells.
#[derive(Debug)]
pub struct ChannelList<T> {
    cells: Vec<ChannelRegister<T>>,
    order: Vec<usize>,
    feeds: Vec<Feed>,
}

impl<T> View for ChannelList<T> {
    type V = ListModel<T>;

    closed spec fn view(&self) -> ListModel<T> {
        ListModel {
            cells: Seq::new(self.cells.len() as nat, |a: int| self.cells[a]@),
            order: Seq::new(self.order.len() as nat, |p: int| self.order[p] as int),
            feeds: Seq::new(self.feeds.len() as nat, |f: int| self.feeds[f]@),
        }
    }
}

impl<T: Copy> ChannelList<T> {
    /// Wraps each of `values` into a cell, keeping their order.
    pub fn new(values: Vec<T>) -> (list: Self)
        ensures
            list@ == ListModel::from_values(values@),
            list@.wf(),
    {
        let mut cells: Vec<ChannelRegister<T>> = Vec::new();
        let mut order: Vec<usize> = Vec::new();
        let count = values.len();
        let mut i: usize = 0;
        while i < count
            invariant
                i <= count,
                count == values.len(),
                cells.len() == i,
                order.len() == i,
                forall|j: int| 0 <= j < i ==> cells[j]@ == CellModel::fresh(values[j]),
                forall|j: int| 0 <= j < i ==> order[j] == j,
            decreases count - i,
        {
            cells.push(ChannelRegister::new(values[i]));
            order.push(i);
            i += 1;
        }
        let list = ChannelList { cells, order, feeds: Vec::new() };
        assert(list@.cells =~= ListModel::from_values(values@).cells);
        assert(list@.order =~= ListModel::<T>::from_values(values@).order);
        assert(list@.feeds =~= ListModel::<T>::from_values(values@).feeds);
        list
    }

    /// Number of members.
    pub fn len(&self) -> (len: usize)
        ensures
            len == self@.len(),
    {
        self.order.len()
    }

    /// Current value of the member at `index`, if there is one.
    pub fn get(&self, index: usize) -> (value: Option<T>)
        requires
            self@.wf(),
        ensures
            value == (if self@.has(index as int) {
                Some(self@.member(index as int).value)
            } else {
                None
            }),
    {
        if index < self.order.len() {
            let member = self.order[index];
            assert(self@.order[index as int] == member);
            Some(self.cells[member].get())
        } else {
            None
        }
    }

    /// Appends a member holding `value`. Existing feeds are not told and
    /// will not see the new member's updates.
    pub fn push(&mut self, value: T)
        requires
            old(self)@.wf(),
        ensures
            final(self)@ == old(self)@.push(value),
            final(self)@.wf(),
    {
        let member = self.cells.len();
        self.cells.push(ChannelRegister::new(value));
        self.order.push(member);
        assert(self@.cells =~= old(self)@.push(value).cells);
        assert(self@.order =~= old(self)@.push(value).order);
        assert(self@.feeds =~= old(self)@.push(value).feeds);
        proof {
            lemma_push_wf(old(self)@, value);
        }
    }

    /// Sets the member at `index` and broadcasts the value to that
    /// member's observers. Fails, changing nothing, when there is no such
    /// position.
    pub fn set(&mut self, index: usize, value: T) -> (outcome: Result<(), OutOfRange>)
        requires
            old(self)@.wf(),
        ensures
            final(self)@.wf(),
            old(self)@.has(index as int) ==> outcome is Ok && final(self)@ == old(self)@.set(
                index as int,
                value,
            ),
            !old(self)@.has(index as int) ==> final(self)@ == old(self)@ && outcome == Err::<(), OutOfRange>(
                OutOfRange { index, len: old(self)@.len() as usize },
            ),
    {
        let len = self.order.len();
        if index >= len {
            return Err(OutOfRange { index, len });
        }
        let member = self.order[index];
        assert(self@.order[index as int] == member);
        self.cells[member].set(value);
        assert(self@.cells =~= old(self)@.set(index as int, value).cells);
        assert(self@.order =~= old(self)@.order);
        assert(self@.feeds =~= old(self)@.feeds);
        proof {
            lemma_set_wf(old(self)@, index as int, value);
        }
        Ok(())
    }

    /// Removes the member at `index` and announces the removal to every
    /// feed. The removed member's streams end once drained. Fails,
    /// changing nothing, when there is no such position.
    pub fn remove(&mut self, index: usize) -> (outcome: Result<(), OutOfRange>)
        requires
            old(self)@.wf(),
        ensures
            final(self)@.wf(),
            old(self)@.has(index as int) ==> outcome is Ok && final(self)@ == old(self)@.remove(
                index as int,
            ),
            !old(self)@.has(index as int) ==> final(self)@ == old(self)@ && outcome == Err::<(), OutOfRange>(
                OutOfRange { index, len: old(self)@.len() as usize },
            ),
    {
        let len = self.order.len();
        if index >= len {
            return Err(OutOfRange { index, len });
        }
        assert(self@.order[index as int] == self.order[index as int]);
        let member = self.order.remove(index);
        self.cells[member].close();
        let position = index as u64;
        let count = self.feeds.len();
        let mut f: usize = 0;
        while f < count
            invariant
                f <= count,
                count == self.feeds.len(),
                count == old(self).feeds.len(),
                self.cells@ == old(self).cells@.update(member as int, self.cells[member as int]),
                self.cells[member as int]@ == old(self).cells[member as int]@.close(),
                member < self.cells.len(),
                self.cells.len() == old(self).cells.len(),
                self.order@ == old(self).order@.remove(index as int),
                forall|g: int|
                    0 <= g < f ==> self.feeds[g]@ == (FeedModel {
                        structural: old(self).feeds[g]@.structural.send(position),
                        ..old(self).feeds[g]@
                    }),
                forall|g: int| f <= g < count ==> self.feeds[g]@ == old(self).feeds[g]@,
            decreases count - f,
        {
            self.feeds[f].structural.send(position);
            assert(self.feeds[f as int]@.sources =~= old(self).feeds[f as int]@.sources);
            f += 1;
        }
        assert(self@.cells =~= old(self)@.remove(index as int).cells);
        assert(self@.order =~= old(self)@.remove(index as int).order);
        assert(self@.feeds =~= old(self)@.remove(index as int).feeds);
        proof {
            lemma_remove_wf(old(self)@, index as int);
        }
        Ok(())
    }
    /// Subscribes to the whole collection and returns the feed's handle.
    /// Every member present now is observed, so the feed starts with each
    /// member's current value tagged with its present position.
    pub fn observe(&mut self) -> (feed: usize)
        requires
            old(self)@.wf(),
        ensures
            feed == old(self)@.next_feed(),
            final(self)@ == old(self)@.observe(),
            final(self)@.wf(),
    {
        let count = self.order.len();
        let mut sources: Vec<Source> = Vec::new();
        let mut p: usize = 0;
        while p < count
            invariant
                p <= count,
                old(self)@.wf(),
                count == self.order.len(),
                self.order@ == old(self).order@,
                self.feeds@ == old(self).feeds@,
                self.cells.len() == old(self).cells.len(),
                sources.len() == p,
                forall|a: int|
                    0 <= a < self.cells.len() ==> #[trigger] self.cells[a]@ == (if old(
                        self,
                    )@.stands_before(p as int, a) {
                        old(self).cells[a]@.observe()
                    } else {
                        old(self).cells[a]@
                    }),
                forall|k: int| 0 <= k < p ==> #[trigger] sources[k]@ == old(self)@.new_feed().sources[k],
            decreases count - p,
        {
            let member = self.order[p];
            assert(old(self)@.order[p as int] == member);
            assert(!old(self)@.stands_before(p as int, member as int));
            let handle = self.cells[member].observe();
            sources.push(Source { member, handle, index: p as u64 });
            assert forall|a: int| 0 <= a < self.cells.len() implies #[trigger] self.cells[a]@ == (
            if old(self)@.stands_before(p + 1, a) {
                old(self).cells[a]@.observe()
            } else {
                old(self).cells[a]@
            }) by {
                if a == member {
                    assert(old(self)@.stands_before(p + 1, a));
                } else {
                    assert(old(self)@.stands_before(p + 1, a) == old(self)@.stands_before(
                        p as int,
                        a,
                    ));
                }
            }
            p += 1;
        }
        let feed = self.feeds.len();
        self.feeds.push(Feed { sources, structural: Channel::open(), cursor: 0 });
        assert(self.feeds[feed as int]@.sources =~= old(self)@.new_feed().sources);
        assert(self@.cells =~= old(self)@.observe().cells);
        assert(self@.order =~= old(self)@.observe().order);
        assert(self@.feeds =~= old(self)@.observe().feeds);
        proof {
            lemma_observe_wf(old(self)@);
        }
        feed
    }
    /// Takes the next event of `feed`. All sources are examined on every
    /// call; among the ready ones the first in cyclic order from the
    /// feed's cursor is served.
    pub fn next(&mut self, feed: usize) -> (delivery: Delivery<Event<ChannelRegister<T>>>)
        requires
            old(self)@.wf(),
        ensures
            delivery == old(self)@.yields(feed as int),
            final(self)@ == old(self)@.advance(feed as int),
            final(self)@.wf(),
    {
        if feed >= self.feeds.len() {
            return Delivery::Ended;
        }
        let count = self.feeds[feed].sources.len();
        let mut ready: Vec<bool> = Vec::new();
        let mut drained = true;
        let mut k: usize = 0;
        while k < count
            invariant
                k <= count,
                self@.wf(),
                feed < self.feeds.len(),
                count == self.feeds[feed as int].sources.len(),
                ready.len() == k,
                forall|j: int| 0 <= j < k ==> ready[j] == (self@.source_yields(feed as int, j) is Item),
                drained == (forall|j: int|
                    0 <= j < k ==> #[trigger] self@.source_yields(feed as int, j) is Ended),
            decreases count - k,
        {
            let source = &self.feeds[feed].sources[k];
            assert(self@.names(self@.feeds[feed as int].sources[k as int]));
            let cell = &self.cells[source.member];
            ready.push(cell.is_ready(source.handle));
            let over = cell.is_ended(source.handle);
            assert(over == (self@.source_yields(feed as int, k as int) is Ended));
            drained = drained && over;
            k += 1;
        }
        ready.push(self.feeds[feed].structural.is_ready());
        drained = drained && self.feeds[feed].structural.is_ended();
        assert(ready@ =~= self@.ready_flags(feed as int));
        assert(drained == self@.drained(feed as int));
        let cursor = self.feeds[feed].cursor;
        match select(&ready, cursor) {
            Some(slot) => {
                proof {
                    let flags = self@.ready_flags(feed as int);
                    assert(chosen(flags, cursor as int, slot as int));
                    assert(any_ready(flags));
                    crate::mux::lemma_chosen_unique(
                        flags,
                        cursor as int,
                        slot as int,
                        self@.pick(feed as int),
                    );
                }
                let moved = if slot < count {
                    slot + 1
                } else {
                    0
                };
                self.feeds[feed].cursor = moved;
                assert(self.feeds[feed as int]@.sources =~= old(self).feeds[feed as int]@.sources);
                if slot < count {
                    let member = self.feeds[feed].sources[slot].member;
                    let handle = self.feeds[feed].sources[slot].handle;
                    let index = self.feeds[feed].sources[slot].index;
                    assert(old(self)@.names(old(self)@.feeds[feed as int].sources[slot as int]));
                    let item = self.cells[member].next(handle);
                    assert(self@.cells =~= old(self)@.serve(feed as int, slot as int).cells);
                    assert(self@.order =~= old(self)@.order);
                    assert(self@.feeds =~= old(self)@.serve(feed as int, slot as int).feeds);
                    proof {
                        lemma_serve_wf(old(self)@, feed as int, slot as int);
                    }
                    match item {
                        Delivery::Item(event) => Delivery::Item(Event::Update { index, event }),
                        _ => vstd::pervasive::unreached(),
                    }
                } else {
                    let item = self.feeds[feed].structural.poll();
                    assert(self.feeds[feed as int]@.sources =~= old(self).feeds[feed as int]@.sources);
                    assert(self@.cells =~= old(self)@.cells);
                    assert(self@.order =~= old(self)@.order);
                    assert(self@.feeds =~= old(self)@.serve(feed as int, slot as int).feeds);
                    proof {
                        lemma_serve_wf(old(self)@, feed as int, slot as int);
                    }
                    match item {
                        Delivery::Item(position) => Delivery::Item(Event::Remove(position)),
                        _ => vstd::pervasive::unreached(),
                    }
                }
            },
            None => if drained {
                Delivery::Ended
            } else {
                Delivery::Pending
            },
        }
    }
    /// Ends the subscription behind `feed` from the subscriber's side and
    /// releases what was queued for it. Other feeds are untouched, and
    /// later broadcasts skip the channels this feed held.
    pub fn unsubscribe(&mut self, feed: usize)
        requires
            old(self)@.wf(),
        ensures
            final(self)@ == old(self)@.unsubscribe(feed as int),
            final(self)@.wf(),
    {
        if feed >= self.feeds.len() {
            return ;
        }
        let count = self.feeds[feed].sources.len();
        let mut k: usize = 0;
        while k < count
            invariant
                k <= count,
                old(self)@.wf(),
                feed < self.feeds.len(),
                self.feeds@ == old(self).feeds@,
                self.order@ == old(self).order@,
                count == self.feeds[feed as int].sources.len(),
                self.cells.len() == old(self).cells.len(),
                forall|a: int|
                    0 <= a < self.cells.len() ==> (#[trigger] self.cells[a]@).value == old(
                        self,
                    ).cells[a]@.value && self.cells[a]@.channels.len() == old(
                        self,
                    ).cells[a]@.channels.len(),
                forall|a: int, h: int|
                    0 <= a < self.cells.len() && 0 <= h < self.cells[a]@.channels.len()
                        ==> #[trigger] self.cells[a]@.channels[h] == (if old(self)@.held_by(
                        feed as int,
                        k as int,
                        a,
                        h,
                    ) {
                        old(self).cells[a]@.channels[h].hang_up()
                    } else {
                        old(self).cells[a]@.channels[h]
                    }),
            decreases count - k,
        {
            let member = self.feeds[feed].sources[k].member;
            let handle = self.feeds[feed].sources[k].handle;
            assert(old(self)@.names(old(self)@.feeds[feed as int].sources[k as int]));
            let ghost before = self.cells@;
            self.cells[member].unsubscribe(handle);
            assert forall|a: int, h: int|
                0 <= a < self.cells.len() && 0 <= h < self.cells[a]@.channels.len() implies #[trigger] self.cells[a]@.channels[h]
                == (if old(self)@.held_by(feed as int, k + 1, a, h) {
                old(self).cells[a]@.channels[h].hang_up()
            } else {
                old(self).cells[a]@.channels[h]
            }) by {
                assert(before[a]@.channels[h] == (if old(self)@.held_by(feed as int, k as int, a, h) {
                    old(self).cells[a]@.channels[h].hang_up()
                } else {
                    old(self).cells[a]@.channels[h]
                }));
                if a == member && h == handle {
                    assert(old(self)@.held_by(feed as int, k + 1, a, h));
                } else {
                    assert(old(self)@.held_by(feed as int, k + 1, a, h) == old(self)@.held_by(
                        feed as int,
                        k as int,
                        a,
                        h,
                    ));
                }
            }
            k += 1;
        }
        self.feeds[feed].structural.hang_up();
        assert(self.feeds[feed as int]@.sources =~= old(self).feeds[feed as int]@.sources);
        assert forall|a: int| 0 <= a < self.cells.len() implies #[trigger] self@.cells[a] == old(
            self,
        )@.unsubscribe(feed as int).cells[a] by {
            assert(self.cells[a]@.channels =~= old(self)@.unsubscribe(feed as int).cells[a].channels);
        }
        assert(self@.cells =~= old(self)@.unsubscribe(feed as int).cells);
        assert(self@.order =~= old(self)@.order);
        assert(self@.feeds =~= old(self)@.unsubscribe(feed as int).feeds);
        proof {
            lemma_unsubscribe_wf(old(self)@, feed as int);
        }
    }

    /// Tears the collection down: every member is removed and destroyed,
    /// and every feed ends once it has drained what was queued for it.
    pub fn close(&mut self)
        requires
            old(self)@.wf(),
        ensures
            final(self)@ == old(self)@.close(),
            final(self)@.wf(),
    {
        self.order.clear();
        let cells = self.cells.len();
        let mut a: usize = 0;
        while a < cells
            invariant
                a <= cells,
                cells == self.cells.len(),
                cells == old(self).cells.len(),
                self.feeds@ == old(self).feeds@,
                self.order@ == Seq::<usize>::empty(),
                forall|b: int| 0 <= b < a ==> self.cells[b]@ == old(self).cells[b]@.close(),
                forall|b: int| a <= b < cells ==> self.cells[b]@ == old(self).cells[b]@,
            decreases cells - a,
        {
            self.cells[a].close();
            a += 1;
        }
        let feeds = self.feeds.len();
        let mut f: usize = 0;
        while f < feeds
            invariant
                f <= feeds,
                feeds == self.feeds.len(),
                feeds == old(self).feeds.len(),
                self.cells.len() == old(self).cells.len(),
                self.order@ == Seq::<usize>::empty(),
                forall|b: int| 0 <= b < self.cells.len() ==> self.cells[b]@ == old(self).cells[b]@.close(),
                forall|g: int|
                    0 <= g < f ==> self.feeds[g]@ == (FeedModel {
                        structural: old(self).feeds[g]@.structural.close(),
                        ..old(self).feeds[g]@
                    }),
                forall|g: int| f <= g < feeds ==> self.feeds[g]@ == old(self).feeds[g]@,
            decreases feeds - f,
        {
            self.feeds[f].structural.close();
            assert(self.feeds[f as int]@.sources =~= old(self).feeds[f as int]@.sources);
            f += 1;
        }
        assert(self@.cells =~= old(self)@.close().cells);
        assert(self@.order =~= old(self)@.close().order);
        assert(self@.feeds =~= old(self)@.close().feeds);
        proof {
            lemma_close_wf(old(self)@);
        }
    }
}

/// Feeds that keep their sources keep them exclusive.
proof fn lemma_same_sources_exclusive<T>(before: ListModel<T>, after: ListModel<T>)
    requires
        before.exclusive(),
        after.feeds.len() == before.feeds.len(),
        forall|f: int|
            0 <= f < before.feeds.len() ==> (#[trigger] after.feeds[f]).sources
                == before.feeds[f].sources,
    ensures
        after.exclusive(),
{
    assert forall|f: int, k: int, g: int, j: int|
        after.has_source(f, k) && after.has_source(g, j) && (f != g || k != j) implies !shares(
        #[trigger] after.feeds[f].sources[k],
        #[trigger] after.feeds[g].sources[j],
    ) by {
        assert(after.feeds[f].sources == before.feeds[f].sources);
        assert(after.feeds[g].sources == before.feeds[g].sources);
        assert(before.has_source(f, k) && before.has_source(g, j));
        assert(!shares(before.feeds[f].sources[k], before.feeds[g].sources[j]));
    }
}

/// A subscriber walking away keeps the collection well formed.
pub proof fn lemma_unsubscribe_wf<T>(list: ListModel<T>, feed: int)
    requires
        list.wf(),
    ensures
        list.unsubscribe(feed).wf(),
{
    lemma_same_sources_exclusive(list, list.unsubscribe(feed));
    let after = list.unsubscribe(feed);
    assert forall|f: int, k: int|
        0 <= f < after.feeds.len() && 0 <= k < after.feeds[f].sources.len() implies after.names(
        #[trigger] after.feeds[f].sources[k],
    ) by {
        assert(list.names(list.feeds[f].sources[k]));
    }
}

/// Tearing the collection down keeps it well formed.
pub proof fn lemma_close_wf<T>(list: ListModel<T>)
    requires
        list.wf(),
    ensures
        list.close().wf(),
{
    lemma_same_sources_exclusive(list, list.close());
    let after = list.close();
    assert forall|f: int, k: int|
        0 <= f < after.feeds.len() && 0 <= k < after.feeds[f].sources.len() implies after.names(
        #[trigger] after.feeds[f].sources[k],
    ) by {
        assert(list.names(list.feeds[f].sources[k]));
    }
}

/// Serving one slot of a feed keeps the collection well formed.
pub proof fn lemma_serve_wf<T>(list: ListModel<T>, feed: int, slot: int)
    requires
        list.wf(),
        list.knows_feed(feed),
        0 <= slot <= list.feeds[feed].sources.len(),
    ensures
        list.serve(feed, slot).wf(),
{
    lemma_same_sources_exclusive(list, list.serve(feed, slot));
    let after = list.serve(feed, slot);
    assert forall|f: int, k: int|
        0 <= f < after.feeds.len() && 0 <= k < after.feeds[f].sources.len() implies after.names(
        #[trigger] after.feeds[f].sources[k],
    ) by {
        assert(list.names(list.feeds[f].sources[k]));
        if slot < list.feeds[feed].sources.len() {
            assert(list.names(list.feeds[feed].sources[slot]));
        }
    }
}

/// Subscribing keeps the collection well formed.
pub proof fn lemma_observe_wf<T>(list: ListModel<T>)
    requires
        list.wf(),
    ensures
        list.observe().wf(),
{
    assert forall|f: int, k: int, g: int, j: int|
        list.observe().has_source(f, k) && list.observe().has_source(g, j) && (f != g || k != j) implies !shares(
        #[trigger] list.observe().feeds[f].sources[k],
        #[trigger] list.observe().feeds[g].sources[j],
    ) by {
        let grown = list.observe();
        let newest = list.next_feed();
        if f != newest {
            assert(list.has_source(f, k));
            assert(list.names(list.feeds[f].sources[k]));
        }
        if g != newest {
            assert(list.has_source(g, j));
            assert(list.names(list.feeds[g].sources[j]));
        }
        if f != newest && g != newest {
            assert(!shares(list.feeds[f].sources[k], list.feeds[g].sources[j]));
        }
        if f == newest && g == newest {
            if k < j {
                assert(list.order[k] != list.order[j]);
            } else {
                assert(list.order[j] != list.order[k]);
            }
        }
    }
    let after = list.observe();
    let fresh = list.next_feed();
    assert forall|f: int, k: int|
        0 <= f < after.feeds.len() && 0 <= k < after.feeds[f].sources.len() implies after.names(
        #[trigger] after.feeds[f].sources[k],
    ) by {
        let source = after.feeds[f].sources[k];
        if f == fresh {
            assert(list.stands_before(list.order.len() as int, list.order[k]));
        } else {
            assert(list.names(list.feeds[f].sources[k]));
        }
    }
}

/// Appending a member keeps the collection well formed.
pub proof fn lemma_push_wf<T>(list: ListModel<T>, value: T)
    requires
        list.wf(),
    ensures
        list.push(value).wf(),
{
    lemma_same_sources_exclusive(list, list.push(value));
    let after = list.push(value);
    assert forall|p: int, q: int| 0 <= p < q < after.order.len() implies #[trigger] after.order[p]
        != #[trigger] after.order[q] by {
        assert(after.order[p] == list.order[p]);
    }
}

/// Setting a member keeps the collection well formed.
pub proof fn lemma_set_wf<T>(list: ListModel<T>, index: int, value: T)
    requires
        list.wf(),
        list.has(index),
    ensures
        list.set(index, value).wf(),
{
    lemma_same_sources_exclusive(list, list.set(index, value));
}

/// Removing a member keeps the collection well formed.
pub proof fn lemma_remove_wf<T>(list: ListModel<T>, index: int)
    requires
        list.wf(),
        list.has(index),
    ensures
        list.remove(index).wf(),
{
    lemma_same_sources_exclusive(list, list.remove(index));
    let after = list.remove(index);
    assert forall|p: int| 0 <= p < after.order.len() implies 0 <= #[trigger] after.order[p]
        < after.cells.len() by {
        if p < index {
            assert(after.order[p] == list.order[p]);
        } else {
            assert(after.order[p] == list.order[p + 1]);
        }
    }
    assert forall|p: int, q: int| 0 <= p < q < after.order.len() implies #[trigger] after.order[p]
        != #[trigger] after.order[q] by {
        let pp = if p < index { p } else { p + 1 };
        let qq = if q < index { q } else { q + 1 };
        assert(after.order[p] == list.order[pp]);
        assert(after.order[q] == list.order[qq]);
    }
}

} // verus!
