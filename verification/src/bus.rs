use vstd::prelude::*;

verus! {

/// What a subscriber sees on one receive.
pub enum BusRecv {
    /// The next published offset, in publish order.
    Msg(u64),
    /// The subscriber fell behind by this many messages and must reconcile
    /// from the store; its cursor jumps to the oldest retained message.
    Lagged(usize),
    /// Nothing new.
    Empty,
}

/// The broadcast bus: new-event offsets published in order, of which only
/// the most recent `capacity` are retained for delivery. Each subscriber
/// owns a cursor into the published sequence.
pub struct Bus {
    pub published: Vec<u64>,
    pub capacity: usize,
}

impl Bus {
    pub fn new(capacity: usize) -> (r: Bus)
        requires
            capacity > 0,
        ensures
            r.published@.len() == 0,
            r.capacity == capacity,
    {
        Bus { published: Vec::new(), capacity }
    }

    /// Publish an offset to every subscriber.
    pub fn publish(&mut self, offset: u64)
        ensures
            final(self).published@ == old(self).published@ + seq![offset],
            final(self).capacity == old(self).capacity,
    {
        self.published.push(offset);
        proof {
            assert(self.published@ =~= old(self).published@ + seq![offset]);
        }
    }

    /// One receive step for a subscriber whose cursor is `cursor`: either
    /// nothing new, the next offset in publish order, or a lag signal with
    /// the number of messages that fell out of the buffer. Returns the
    /// message and the new cursor.
    pub fn recv(&self, cursor: usize) -> (r: (BusRecv, usize))
        requires
            self.capacity > 0,
            cursor <= self.published@.len(),
        ensures
            cursor == self.published@.len() ==> r.0 is Empty && r.1 == cursor,
            cursor < self.published@.len() && self.published@.len() - cursor
                <= self.capacity ==> ({
                &&& r.0 matches BusRecv::Msg(o) && o == self.published@[cursor as int]
                &&& r.1 == cursor + 1
            }),
            cursor < self.published@.len() && self.published@.len() - cursor
                > self.capacity ==> ({
                &&& r.0 matches BusRecv::Lagged(n) && n == self.published@.len() - cursor
                    - self.capacity
                &&& r.1 == self.published@.len() - self.capacity
            }),
    {
        let len = self.published.len();
        if cursor == len {
            (BusRecv::Empty, cursor)
        } else if len - cursor <= self.capacity {
            (BusRecv::Msg(self.published[cursor]), cursor + 1)
        } else {
            (BusRecv::Lagged(len - cursor - self.capacity), len - self.capacity)
        }
    }
}

} // verus!
