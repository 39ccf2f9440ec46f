//! Unbounded single-consumer delivery channels.
//!
//! A channel is a queue with two ends. The sending end belongs to whoever
//! broadcasts values; the receiving end belongs to one subscriber. Either
//! end can go away independently of the other.
use std::collections::VecDeque;
use vstd::prelude::*;

verus! {

/// Outcome of asking a stream for its next item.
#[derive(Debug, PartialEq, Eq)]
pub enum Delivery<T> {
    /// The next item, now consumed.
    Item(T),
    /// Nothing is queued, but more may still arrive.
    Pending,
    /// Nothing is queued and nothing will ever arrive.
    Ended,
}

/// Mathematical state of a channel.
pub struct ChannelModel<T> {
    /// Values sent and not yet received, oldest first.
    pub queue: Seq<T>,
    /// Whether the receiving end still exists.
    pub receiving: bool,
    /// Whether the sending end still exists.
    pub sending: bool,
}

impl<T> ChannelModel<T> {
    /// A channel just opened, seeded with one value.
    pub open spec fn seeded(value: T) -> Self {
        ChannelModel { queue: seq![value], receiving: true, sending: true }
    }

    /// A channel just opened, with nothing queued.
    pub open spec fn opened() -> Self {
        ChannelModel { queue: Seq::empty(), receiving: true, sending: true }
    }

    /// Sending appends to the queue; a send with either end gone is absorbed.
    pub open spec fn send(self, value: T) -> Self {
        if self.receiving && self.sending {
            ChannelModel { queue: self.queue.push(value), ..self }
        } else {
            self
        }
    }

    /// An item can be handed out right now.
    pub open spec fn ready(self) -> bool {
        self.receiving && self.queue.len() > 0
    }

    /// No item will ever be handed out again.
    pub open spec fn ended(self) -> bool {
        !self.receiving || (self.queue.len() == 0 && !self.sending)
    }

    /// What the next poll hands out.
    pub open spec fn yields(self) -> Delivery<T> {
        if self.ready() {
            Delivery::Item(self.queue[0])
        } else if self.ended() {
            Delivery::Ended
        } else {
            Delivery::Pending
        }
    }

    /// The channel after one poll: the oldest queued item, if any, is gone.
    pub open spec fn advance(self) -> Self {
        if self.ready() {
            ChannelModel { queue: self.queue.drop_first(), ..self }
        } else {
            self
        }
    }

    /// The receiving end goes away; whatever was queued is released.
    pub open spec fn hang_up(self) -> Self {
        ChannelModel { queue: Seq::empty(), receiving: false, sending: self.sending }
    }

    /// The sending end goes away; what is queued stays readable.
    pub open spec fn close(self) -> Self {
        ChannelModel { sending: false, ..self }
    }
}

/// One delivery channel.
#[derive(Debug)]
pub struct Channel<T> {
    queue: VecDeque<T>,
    receiving: bool,
    sending: bool,
}

impl<T> View for Channel<T> {
    type V = ChannelModel<T>;

    closed spec fn view(&self) -> ChannelModel<T> {
        ChannelModel { queue: self.queue@, receiving: self.receiving, sending: self.sending }
    }
}

impl<T: Copy> Channel<T> {
    /// Opens a channel whose first queued item is `value`.
    pub fn seeded(value: T) -> (channel: Self)
        ensures
            channel@ == ChannelModel::seeded(value),
    {
        let mut queue: VecDeque<T> = VecDeque::new();
        queue.push_back(value);
        let channel = Channel { queue, receiving: true, sending: true };
        assert(channel@.queue =~= seq![value]);
        channel
    }

    /// Opens a channel with nothing queued.
    pub fn open() -> (channel: Self)
        ensures
            channel@ == ChannelModel::<T>::opened(),
    {
        let channel = Channel { queue: VecDeque::new(), receiving: true, sending: true };
        assert(channel@.queue =~= Seq::empty());
        channel
    }

    /// Queues `value` for the receiver. Never fails: when either end is
    /// gone the value is dropped on the floor.
    pub fn send(&mut self, value: T)
        ensures
            final(self)@ == old(self)@.send(value),
    {
        if self.receiving && self.sending {
            self.queue.push_back(value);
        }
    }

    /// Whether a poll would hand out an item.
    pub fn is_ready(&self) -> (ready: bool)
        ensures
            ready == self@.ready(),
    {
        self.receiving && self.queue.len() > 0
    }

    /// Whether the stream is over for good.
    pub fn is_ended(&self) -> (ended: bool)
        ensures
            ended == self@.ended(),
    {
        !self.receiving || (self.queue.len() == 0 && !self.sending)
    }

    /// Number of items queued and not yet received.
    pub fn backlog(&self) -> (count: usize)
        ensures
            count == self@.queue.len(),
    {
        self.queue.len()
    }

    /// Takes the oldest queued item, or reports why there is none.
    pub fn poll(&mut self) -> (delivery: Delivery<T>)
        ensures
            delivery == old(self)@.yields(),
            final(self)@ == old(self)@.advance(),
    {
        if !self.receiving {
            return Delivery::Ended;
        }
        match self.queue.pop_front() {
            Some(value) => Delivery::Item(value),
            None => if self.sending {
                Delivery::Pending
            } else {
                Delivery::Ended
            },
        }
    }

    /// Drops the receiving end and releases the backlog.
    pub fn hang_up(&mut self)
        ensures
            final(self)@ == old(self)@.hang_up(),
    {
        self.queue.clear();
        self.receiving = false;
    }

    /// Drops the sending end. Queued items stay readable.
    pub fn close(&mut self)
        ensures
            final(self)@ == old(self)@.close(),
    {
        self.sending = false;
    }
}

} // verus!
