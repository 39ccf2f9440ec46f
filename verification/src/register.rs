//! The reactive cell: one value, broadcast to every observer on change.
use crate::channel::{Channel, ChannelModel, Delivery};
use vstd::prelude::*;

verus! {

/// Mathematical state of a reactive cell.
pub struct CellModel<T> {
    /// The current value.
    pub value: T,
    /// One channel per subscription ever made, in registration order. A
    /// subscription's handle is its position here.
    pub channels: Seq<ChannelModel<T>>,
}

impl<T> CellModel<T> {
    /// A cell nobody observes yet.
    pub open spec fn fresh(value: T) -> Self {
        CellModel { value, channels: Seq::empty() }
    }

    /// `handle` names a subscription of this cell.
    pub open spec fn knows(self, handle: int) -> bool {
        0 <= handle < self.channels.len()
    }

    /// The handle the next subscription will get.
    pub open spec fn next_handle(self) -> int {
        self.channels.len() as int
    }

    /// Registers a subscription seeded with the current value.
    pub open spec fn observe(self) -> Self {
        CellModel { channels: self.channels.push(ChannelModel::seeded(self.value)), ..self }
    }

    /// Replaces the value and sends it down every channel.
    pub open spec fn set(self, value: T) -> Self {
        CellModel {
            value,
            channels: Seq::new(self.channels.len(), |i: int| self.channels[i].send(value)),
        }
    }

    /// Applies `set` for each of `values`, first to last.
    pub open spec fn set_all(self, values: Seq<T>) -> Self
        decreases values.len(),
    {
        if values.len() == 0 {
            self
        } else {
            self.set_all(values.drop_last()).set(values.last())
        }
    }

    /// Items queued for `handle`, oldest first.
    pub open spec fn pending(self, handle: int) -> Seq<T> {
        self.channels[handle].queue
    }

    /// What the next poll of `handle` hands out. An unknown handle has no
    /// stream, which reads as a stream that is over.
    pub open spec fn yields(self, handle: int) -> Delivery<T> {
        if self.knows(handle) {
            self.channels[handle].yields()
        } else {
            Delivery::Ended
        }
    }

    /// The cell after one poll of `handle`.
    pub open spec fn advance(self, handle: int) -> Self {
        if self.knows(handle) {
            CellModel { channels: self.channels.update(handle, self.channels[handle].advance()), ..self }
        } else {
            self
        }
    }

    /// The cell after `count` polls of `handle`.
    pub open spec fn advance_by(self, handle: int, count: nat) -> Self
        decreases count,
    {
        if count == 0 {
            self
        } else {
            self.advance_by(handle, (count - 1) as nat).advance(handle)
        }
    }

    /// The subscriber behind `handle` walks away.
    pub open spec fn unsubscribe(self, handle: int) -> Self {
        if self.knows(handle) {
            CellModel { channels: self.channels.update(handle, self.channels[handle].hang_up()), ..self }
        } else {
            self
        }
    }

    /// Every channel registered so far loses its sending end.
    pub open spec fn close(self) -> Self {
        CellModel {
            value: self.value,
            channels: Seq::new(self.channels.len(), |i: int| self.channels[i].close()),
        }
    }
}

/// A reactive cell whose observers are fed through channels.
#[derive(Debug)]
pub struct ChannelRegister<T> {
    value: T,
    channels: Vec<Channel<T>>,
}

impl<T> View for ChannelRegister<T> {
    type V = CellModel<T>;

    closed spec fn view(&self) -> CellModel<T> {
        CellModel {
            value: self.value,
            channels: Seq::new(self.channels.len() as nat, |i: int| self.channels[i]@),
        }
    }
}

impl<T: Copy> ChannelRegister<T> {
    /// Wraps `value` into a cell with no observers.
    pub fn new(value: T) -> (cell: Self)
        ensures
            cell@ == CellModel::fresh(value),
    {
        let cell = ChannelRegister { value, channels: Vec::new() };
        assert(cell@.channels =~= Seq::empty());
        cell
    }

    /// The current value.
    pub fn get(&self) -> (value: T)
        ensures
            value == self@.value,
    {
        self.value
    }

    /// Number of subscriptions ever made.
    pub fn subscriptions(&self) -> (count: usize)
        ensures
            count == self@.channels.len(),
    {
        self.channels.len()
    }

    /// Starts a new subscription and returns its handle. The current value
    /// is queued at once, so it is the first item the subscriber receives.
    pub fn observe(&mut self) -> (handle: usize)
        ensures
            handle == old(self)@.next_handle(),
            final(self)@ == old(self)@.observe(),
    {
        let handle = self.channels.len();
        self.channels.push(Channel::seeded(self.value));
        assert(self@.channels =~= old(self)@.observe().channels);
        handle
    }

    /// Replaces the value and broadcasts it to every subscriber, in
    /// registration order.
    pub fn set(&mut self, value: T)
        ensures
            final(self)@ == old(self)@.set(value),
    {
        self.value = value;
        let count = self.channels.len();
        let mut i: usize = 0;
        while i < count
            invariant
                i <= count,
                count == self.channels.len(),
                count == old(self).channels.len(),
                self.value == value,
                forall|j: int| 0 <= j < i ==> self.channels[j]@ == old(self).channels[j]@.send(value),
                forall|j: int| i <= j < count ==> self.channels[j]@ == old(self).channels[j]@,
            decreases count - i,
        {
            self.channels[i].send(value);
            i += 1;
        }
        assert(self@.channels =~= old(self)@.set(value).channels);
    }

    /// Whether a poll of `handle` would hand out an item.
    pub fn is_ready(&self, handle: usize) -> (ready: bool)
        ensures
            ready == (self@.yields(handle as int) is Item),
    {
        handle < self.channels.len() && self.channels[handle].is_ready()
    }

    /// Whether the stream behind `handle` is over for good.
    pub fn is_ended(&self, handle: usize) -> (ended: bool)
        ensures
            ended == (self@.yields(handle as int) is Ended),
    {
        handle >= self.channels.len() || self.channels[handle].is_ended()
    }

    /// Takes the next item queued for `handle`.
    pub fn next(&mut self, handle: usize) -> (delivery: Delivery<T>)
        ensures
            delivery == old(self)@.yields(handle as int),
            final(self)@ == old(self)@.advance(handle as int),
    {
        if handle < self.channels.len() {
            let delivery = self.channels[handle].poll();
            assert(self@.channels =~= old(self)@.advance(handle as int).channels);
            delivery
        } else {
            Delivery::Ended
        }
    }

    /// Ends the subscription behind `handle` from the subscriber's side.
    /// Later broadcasts skip it; other subscriptions are untouched.
    pub fn unsubscribe(&mut self, handle: usize)
        ensures
            final(self)@ == old(self)@.unsubscribe(handle as int),
    {
        if handle < self.channels.len() {
            self.channels[handle].hang_up();
            assert(self@.channels =~= old(self)@.unsubscribe(handle as int).channels);
        }
    }

    /// Tears the cell's streams down: every subscription made so far keeps
    /// what is already queued for it and then ends.
    pub fn close(&mut self)
        ensures
            final(self)@ == old(self)@.close(),
    {
        let count = self.channels.len();
        let mut i: usize = 0;
        while i < count
            invariant
                i <= count,
                count == self.channels.len(),
                count == old(self).channels.len(),
                self.value == old(self).value,
                forall|j: int| 0 <= j < i ==> self.channels[j]@ == old(self).channels[j]@.close(),
                forall|j: int| i <= j < count ==> self.channels[j]@ == old(self).channels[j]@,
            decreases count - i,
        {
            self.channels[i].close();
            i += 1;
        }
        assert(self@.channels =~= old(self)@.close().channels);
    }
}

/// `set_all` keeps the set of channels, and appends the values to each
/// channel with both ends alive while leaving the others as they were.
pub proof fn lemma_set_all_channels<T>(cell: CellModel<T>, values: Seq<T>)
    ensures
        cell.set_all(values).channels.len() == cell.channels.len(),
        cell.set_all(values).value == (if values.len() == 0 {
            cell.value
        } else {
            values.last()
        }),
        forall|h: int|
            #![trigger cell.set_all(values).channels[h]]
            cell.knows(h) ==> cell.set_all(values).channels[h] == (if cell.channels[h].receiving
                && cell.channels[h].sending {
                ChannelModel { queue: cell.channels[h].queue + values, ..cell.channels[h] }
            } else {
                cell.channels[h]
            }),
    decreases values.len(),
{
    if values.len() == 0 {
        assert forall|h: int| cell.knows(h) implies cell.channels[h].queue + values
            =~= cell.channels[h].queue by {}
    } else {
        let front = values.drop_last();
        lemma_set_all_channels(cell, front);
        let before = cell.set_all(front);
        assert forall|h: int| cell.knows(h) implies #[trigger] cell.set_all(values).channels[h] == (
        if cell.channels[h].receiving && cell.channels[h].sending {
            ChannelModel { queue: cell.channels[h].queue + values, ..cell.channels[h] }
        } else {
            cell.channels[h]
        }) by {
            assert(before.knows(h));
            assert(cell.set_all(values).channels[h] == before.channels[h].send(values.last()));
            assert((cell.channels[h].queue + front).push(values.last()) =~= cell.channels[h].queue
                + values);
        }
    }
}

/// Polling `count` times, with at least that many items queued, removes
/// exactly the `count` oldest items of that one channel.
pub proof fn lemma_advance_by<T>(cell: CellModel<T>, handle: int, count: nat)
    requires
        cell.knows(handle),
        cell.channels[handle].receiving,
        count <= cell.channels[handle].queue.len(),
    ensures
        cell.advance_by(handle, count).value == cell.value,
        cell.advance_by(handle, count).channels == cell.channels.update(
            handle,
            ChannelModel { queue: cell.channels[handle].queue.skip(count as int), ..cell.channels[handle] },
        ),
    decreases count,
{
    let channel = cell.channels[handle];
    if count == 0 {
        assert(channel.queue.skip(0) =~= channel.queue);
        assert(cell.channels.update(handle, channel) =~= cell.channels);
    } else {
        lemma_advance_by(cell, handle, (count - 1) as nat);
        let before = cell.advance_by(handle, (count - 1) as nat);
        assert(before.channels[handle].queue.drop_first() =~= channel.queue.skip(count as int));
        assert(cell.advance_by(handle, count).channels =~= cell.channels.update(
            handle,
            ChannelModel { queue: channel.queue.skip(count as int), ..channel },
        ));
    }
}

/// Polling a subscription whose subscriber walked away changes nothing.
pub proof fn lemma_advance_by_hung_up<T>(cell: CellModel<T>, handle: int, count: nat)
    requires
        cell.knows(handle),
        !cell.channels[handle].receiving,
    ensures
        cell.advance_by(handle, count) == cell,
    decreases count,
{
    if count > 0 {
        lemma_advance_by_hung_up(cell, handle, (count - 1) as nat);
        assert(cell.channels.update(handle, cell.channels[handle]) =~= cell.channels);
    }
}

/// Snapshot on subscribe: the first item a new subscription receives is
/// the value the cell held when the subscription was made.
pub proof fn law_snapshot_on_subscribe<T>(cell: CellModel<T>)
    ensures
        cell.observe().pending(cell.next_handle()) == seq![cell.value],
        cell.observe().yields(cell.next_handle()) == Delivery::Item(cell.value),
        cell.observe().value == cell.value,
{
}

/// Broadcast completeness: values set after a subscription began are
/// queued for it behind its snapshot, each once, in the order they were
/// set; polling hands them out in that order and then reports `Pending`.
pub proof fn law_broadcast_complete<T>(cell: CellModel<T>, values: Seq<T>)
    ensures
        cell.observe().set_all(values).pending(cell.next_handle()) == seq![cell.value] + values,
        forall|k: nat|
            k <= values.len() ==> #[trigger] cell.observe().set_all(values).advance_by(
                cell.next_handle(),
                k,
            ).yields(cell.next_handle()) == Delivery::Item((seq![cell.value] + values)[k as int]),
        cell.observe().set_all(values).advance_by(
            cell.next_handle(),
            values.len() + 1,
        ).yields(cell.next_handle()) == Delivery::<T>::Pending,
{
    let h = cell.next_handle();
    let after = cell.observe().set_all(values);
    lemma_set_all_channels(cell.observe(), values);
    assert(cell.observe().knows(h));
    assert(after.channels[h].queue == seq![cell.value] + values);
    let queued = seq![cell.value] + values;
    assert forall|k: nat| k <= values.len() implies #[trigger] after.advance_by(h, k).yields(h)
        == Delivery::Item(queued[k as int]) by {
        lemma_advance_by(after, h, k);
        assert(after.advance_by(h, k).knows(h));
        assert(queued.skip(k as int)[0] == queued[k as int]);
    }
    lemma_advance_by(after, h, values.len() + 1);
    assert(after.advance_by(h, values.len() + 1).knows(h));
}

/// A broadcast reaches every subscription with both ends alive: the
/// values are appended to what was already queued, in order.
pub proof fn law_broadcast_appends<T>(cell: CellModel<T>, handle: int, values: Seq<T>)
    requires
        cell.knows(handle),
        cell.channels[handle].receiving,
        cell.channels[handle].sending,
    ensures
        cell.set_all(values).pending(handle) == cell.pending(handle) + values,
{
    lemma_set_all_channels(cell, values);
}

/// Subscriber independence: two subscriptions made at different times
/// each get the snapshot of their own start followed by every later
/// value, and one of them walking away changes nothing for the other,
/// neither what it has queued nor what later broadcasts add to it.
pub proof fn law_subscriber_independence<T>(
    cell: CellModel<T>,
    early: Seq<T>,
    late: Seq<T>,
    later: Seq<T>,
)
    ensures
        ({
            let first = cell.next_handle();
            let middle = cell.observe().set_all(early);
            let second = middle.next_handle();
            let both = middle.observe().set_all(late);
            &&& first != second
            &&& both.pending(first) == seq![cell.value] + early + late
            &&& both.pending(second) == seq![middle.value] + late
            &&& both.unsubscribe(first).channels[second] == both.channels[second]
            &&& both.unsubscribe(second).channels[first] == both.channels[first]
            &&& both.unsubscribe(first).set_all(later).pending(second) == both.pending(second)
                + later
            &&& both.unsubscribe(second).set_all(later).pending(first) == both.pending(first)
                + later
            &&& both.unsubscribe(first).yields(first) == Delivery::<T>::Ended
        }),
{
    let first = cell.next_handle();
    let middle = cell.observe().set_all(early);
    let second = middle.next_handle();
    let both = middle.observe().set_all(late);
    lemma_set_all_channels(cell.observe(), early);
    lemma_set_all_channels(middle.observe(), late);
    assert(cell.observe().knows(first));
    assert(middle.observe().knows(first));
    assert(middle.observe().knows(second));
    assert(middle.observe().channels[first] == middle.channels[first]);
    lemma_set_all_channels(both.unsubscribe(first), later);
    lemma_set_all_channels(both.unsubscribe(second), later);
    assert(both.unsubscribe(first).knows(second));
    assert(both.unsubscribe(second).knows(first));
}

} // verus!
