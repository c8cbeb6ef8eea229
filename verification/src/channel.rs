//! A bounded first-in, first-out channel with closure, as a state machine.
//!
//! A well-formed channel never holds more items than its capacity, and
//! every operation keeps it well formed. A sender that finds it full is
//! told so and tries again later, which is the only backpressure of the
//! pipeline. The channel closes when its last sender is released; a
//! receiver learns that it is drained once it is closed and empty. Whoever
//! shares a channel between threads guards it with a lock and waits on
//! `Full` and `Empty`.

use std::collections::VecDeque;
use vstd::prelude::*;

verus! {

/// A bounded channel.
pub struct Channel<T> {
    items: VecDeque<T>,
    capacity: usize,
    senders: usize,
}

/// The mathematical content of a [`Channel`]: the items in the order in
/// which they were sent, the capacity, and the number of senders that have
/// not been released.
pub struct ChannelView<T> {
    pub queue: Seq<T>,
    pub capacity: nat,
    pub senders: nat,
}

impl<T> ChannelView<T> {
    /// No sender is left: nothing more can be sent.
    pub open spec fn is_closed(self) -> bool {
        self.senders == 0
    }

    /// The channel is closed and empty: nothing more can be received.
    pub open spec fn is_drained(self) -> bool {
        self.senders == 0 && self.queue.len() == 0
    }

    /// The channel holds as many items as it can.
    pub open spec fn is_full(self) -> bool {
        self.queue.len() >= self.capacity
    }
}

/// The channel after an item was offered: appended if a sender is left and
/// there is room, and the channel as it was otherwise.
pub open spec fn after_send<T>(c: ChannelView<T>, item: T) -> ChannelView<T> {
    if c.is_closed() || c.is_full() {
        c
    } else {
        ChannelView { queue: c.queue.push(item), ..c }
    }
}

/// The channel after a receiver looked into it: without its oldest item, if
/// it held one.
pub open spec fn after_receive<T>(c: ChannelView<T>) -> ChannelView<T> {
    if c.queue.len() > 0 {
        ChannelView { queue: c.queue.drop_first(), ..c }
    } else {
        c
    }
}

/// The channel after one sender was released.
pub open spec fn after_release<T>(c: ChannelView<T>) -> ChannelView<T> {
    ChannelView {
        senders: if c.senders == 0 {
            0nat
        } else {
            (c.senders - 1) as nat
        },
        ..c
    }
}

/// What became of an item that was offered to a channel.
pub enum Sent<T> {
    /// The item was appended.
    Accepted,
    /// The channel is full; the item comes back.
    Full(T),
    /// The channel is closed; the item comes back.
    Closed(T),
}

/// What a receiver got from a channel.
pub enum Received<T> {
    /// The oldest item.
    Item(T),
    /// Nothing yet: the channel is empty, and a sender is left.
    Empty,
    /// Nothing ever again: the channel is closed and empty.
    Drained,
}

impl<T> View for Channel<T> {
    type V = ChannelView<T>;

    closed spec fn view(&self) -> ChannelView<T> {
        ChannelView {
            queue: self.items@,
            capacity: self.capacity as nat,
            senders: self.senders as nat,
        }
    }
}

impl<T> Channel<T> {
    /// The channel is well formed: it can hold an item, and it holds no
    /// more items than it can.
    pub open spec fn wf(&self) -> bool {
        1 <= self@.capacity && self@.queue.len() <= self@.capacity
    }

    /// An empty channel for the given number of senders. A capacity of zero
    /// is raised to one.
    pub fn new(capacity: usize, senders: usize) -> (c: Channel<T>)
        ensures
            c@.queue == Seq::<T>::empty(),
            c@.capacity == if capacity == 0 {
                1nat
            } else {
                capacity as nat
            },
            c@.senders == senders,
            c.wf(),
    {
        let capacity = if capacity == 0 {
            1
        } else {
            capacity
        };
        Channel { items: VecDeque::new(), capacity, senders }
    }

    /// The number of items that wait in the channel.
    pub fn len(&self) -> (n: usize)
        ensures
            n == self@.queue.len(),
    {
        self.items.len()
    }

    /// The number of items that the channel can hold.
    pub fn capacity(&self) -> (n: usize)
        ensures
            n == self@.capacity,
    {
        self.capacity
    }

    /// Tells whether no sender is left.
    pub fn is_closed(&self) -> (b: bool)
        ensures
            b == self@.is_closed(),
    {
        self.senders == 0
    }

    /// Tells whether the channel is closed and empty.
    pub fn is_drained(&self) -> (b: bool)
        ensures
            b == self@.is_drained(),
    {
        self.senders == 0 && self.items.len() == 0
    }

    /// Offers an item. It is appended if a sender is left and the channel is
    /// not full; otherwise it comes back and the channel stays as it was.
    pub fn try_send(&mut self, item: T) -> (r: Sent<T>)
        ensures
            final(self)@ == after_send(old(self)@, item),
            old(self).wf() ==> final(self).wf(),
            match r {
                Sent::Accepted => !old(self)@.is_closed() && !old(self)@.is_full(),
                Sent::Full(back) => !old(self)@.is_closed() && old(self)@.is_full() && back == item,
                Sent::Closed(back) => old(self)@.is_closed() && back == item,
            },
    {
        if self.senders == 0 {
            Sent::Closed(item)
        } else if self.items.len() >= self.capacity {
            Sent::Full(item)
        } else {
            self.items.push_back(item);
            Sent::Accepted
        }
    }

    /// Takes the oldest item, if there is one. Otherwise tells whether more
    /// may come.
    pub fn try_receive(&mut self) -> (r: Received<T>)
        ensures
            final(self)@ == after_receive(old(self)@),
            old(self).wf() ==> final(self).wf(),
            match r {
                Received::Item(item) => old(self)@.queue.len() > 0 && item == old(self)@.queue[0],
                Received::Empty => old(self)@.queue.len() == 0 && !old(self)@.is_closed(),
                Received::Drained => old(self)@.is_drained(),
            },
    {
        match self.items.pop_front() {
            Some(item) => Received::Item(item),
            None => {
                if self.senders == 0 {
                    Received::Drained
                } else {
                    Received::Empty
                }
            },
        }
    }

    /// Releases one sender. The channel closes when the last one goes; on a
    /// closed channel nothing changes.
    pub fn release_sender(&mut self)
        ensures
            final(self)@ == after_release(old(self)@),
    {
        if self.senders > 0 {
            self.senders = self.senders - 1;
        }
    }

    /// Closes the channel at once, whatever the number of senders. What it
    /// holds can still be received.
    pub fn close(&mut self)
        ensures
            final(self)@.queue == old(self)@.queue,
            final(self)@.capacity == old(self)@.capacity,
            final(self)@.senders == 0,
    {
        self.senders = 0;
    }
}

} // verus!
