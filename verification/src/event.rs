//! Buffered event channels with a retention window of two ticks.
//!
//! A channel counts the ticks it has completed. An event is stamped with the
//! counter's value at the time it is sent and stays readable while the counter
//! reads that value or the next one: through the rest of the tick in which it
//! was sent and through the whole of the following tick. The second advance
//! after the send drops it, read or not.
//!
//! While the counter reads `T` the tick in progress is the `(T + 1)`-th, so an
//! event sent when the counter reads `T` is readable during ticks `T + 1` and
//! `T + 2` and gone from tick `T + 3` on.

use vstd::prelude::*;

verus! {

/// A reader's position in a channel: how many of the events stamped `tick`
/// the reader has seen, all earlier events counting as seen.
#[derive(Clone, Copy, Debug, PartialEq, Eq, Structural)]
pub struct Cursor {
    pub tick: u64,
    pub offset: usize,
}

/// The signal a sender gets when a channel with a capacity is full.
#[derive(Clone, Copy, Debug, PartialEq, Eq, Structural)]
pub struct ChannelOverflow {
    /// The capacity that the channel was made with.
    pub capacity: usize,
}

/// What a channel holds, as mathematics.
pub struct ChannelView<E> {
    /// Events stamped with the tick before the current one, oldest first.
    pub older: Seq<E>,
    /// Events stamped with the current tick, oldest first.
    pub newer: Seq<E>,
    /// Number of ticks that the channel has completed.
    pub tick: nat,
    /// Largest number of events the channel retains, if it is bounded.
    pub capacity: Option<usize>,
}

/// `offset` cut down to `len`.
pub open spec fn clip(offset: usize, len: nat) -> int {
    if offset <= len {
        offset as int
    } else {
        len as int
    }
}

impl<E> ChannelView<E> {
    /// Everything the channel retains, oldest first.
    pub open spec fn retained(self) -> Seq<E> {
        self.older + self.newer
    }

    /// Whether one more event fits.
    pub open spec fn has_room(self) -> bool {
        match self.capacity {
            Some(c) => self.older.len() + self.newer.len() < c,
            None => true,
        }
    }

    /// The events a reader at `cursor` has yet to see. Events that were
    /// dropped before the reader came back are skipped without notice.
    pub open spec fn visible_to(self, cursor: Cursor) -> Seq<E> {
        if cursor.tick > self.tick {
            Seq::empty()
        } else if cursor.tick == self.tick {
            self.newer.skip(clip(cursor.offset, self.newer.len()))
        } else if cursor.tick + 1 == self.tick {
            self.older.skip(clip(cursor.offset, self.older.len())) + self.newer
        } else {
            self.older + self.newer
        }
    }

    /// The channel after `event` was sent.
    pub open spec fn sent(self, event: E) -> Self {
        ChannelView { newer: self.newer.push(event), ..self }
    }

    /// The channel after all of `events` were sent, in order.
    pub open spec fn sent_all(self, events: Seq<E>) -> Self {
        ChannelView { newer: self.newer + events, ..self }
    }

    /// The channel after one tick is completed: what was sent during that tick
    /// is kept for one more tick, what was sent before it is dropped.
    pub open spec fn advanced(self) -> Self {
        ChannelView { older: self.newer, newer: Seq::empty(), tick: self.tick + 1, ..self }
    }

    /// The channel after `n` ticks are completed in a row.
    pub open spec fn advanced_by(self, n: nat) -> Self
        decreases n,
    {
        if n == 0 {
            self
        } else {
            self.advanced_by((n - 1) as nat).advanced()
        }
    }
}

impl Cursor {
    /// The position of a reader that has seen nothing: everything a channel
    /// retains is visible to it.
    pub fn start() -> (cursor: Cursor)
        ensures
            cursor == (Cursor { tick: 0, offset: 0 }),
    {
        Cursor { tick: 0, offset: 0 }
    }
}

/// A multi-producer, multi-consumer queue of events of one kind.
///
/// Sending appends to the current tick's buffer. Readers never take anything
/// out: each owns a cursor, so one reader's progress is invisible to the next.
pub struct EventChannel<E> {
    /// Retained events, oldest first: those of the previous tick, then those
    /// of the current one.
    retained: Vec<E>,
    /// Number of retained events that belong to the previous tick.
    split: usize,
    tick: u64,
    capacity: Option<usize>,
}

impl<E> View for EventChannel<E> {
    type V = ChannelView<E>;

    closed spec fn view(&self) -> ChannelView<E> {
        ChannelView {
            older: self.retained@.take(self.split as int),
            newer: self.retained@.skip(self.split as int),
            tick: self.tick as nat,
            capacity: self.capacity,
        }
    }
}

impl<E> EventChannel<E> {
    /// The boundary between the two ticks' events lies inside the buffer, and
    /// a channel that has completed no tick holds nothing from an earlier one.
    pub closed spec fn wf(&self) -> bool {
        &&& self.split <= self.retained@.len()
        &&& self.tick == 0 ==> self.split == 0
    }

    /// An empty channel without a bound on what it retains.
    pub fn new() -> (channel: Self)
        ensures
            channel.wf(),
            channel@ == (ChannelView::<E> {
                older: Seq::empty(),
                newer: Seq::empty(),
                tick: 0,
                capacity: None,
            }),
    {
        let channel = EventChannel { retained: Vec::new(), split: 0, tick: 0, capacity: None };
        assert(channel@.older =~= Seq::empty());
        assert(channel@.newer =~= Seq::empty());
        channel
    }

    /// An empty channel that retains at most `capacity` events.
    pub fn with_capacity(capacity: usize) -> (channel: Self)
        ensures
            channel.wf(),
            channel@ == (ChannelView::<E> {
                older: Seq::empty(),
                newer: Seq::empty(),
                tick: 0,
                capacity: Some(capacity),
            }),
    {
        let channel = EventChannel {
            retained: Vec::new(),
            split: 0,
            tick: 0,
            capacity: Some(capacity),
        };
        assert(channel@.older =~= Seq::empty());
        assert(channel@.newer =~= Seq::empty());
        channel
    }

    /// An empty channel that joins at a given tick count, bounded if a
    /// capacity is given.
    pub fn starting_at(tick: u64, capacity: Option<usize>) -> (channel: Self)
        ensures
            channel.wf(),
            channel@ == (ChannelView::<E> {
                older: Seq::empty(),
                newer: Seq::empty(),
                tick: tick as nat,
                capacity,
            }),
    {
        let channel = EventChannel { retained: Vec::new(), split: 0, tick, capacity };
        assert(channel@.older =~= Seq::empty());
        assert(channel@.newer =~= Seq::empty());
        channel
    }

    /// Number of ticks that the channel has completed.
    pub fn tick(&self) -> (t: u64)
        ensures
            t == self@.tick,
    {
        self.tick
    }

    /// Whether `advance` may be called: the tick counter has not run out.
    pub fn can_advance(&self) -> (ok: bool)
        ensures
            ok == (self@.tick < u64::MAX),
    {
        self.tick < u64::MAX
    }

    /// Number of events that the channel retains.
    pub fn len(&self) -> (n: usize)
        requires
            self.wf(),
        ensures
            n == self@.retained().len(),
    {
        self.retained.len()
    }

    /// The position behind the newest event: a reader that starts here sees
    /// only what is sent from now on.
    pub fn end(&self) -> (cursor: Cursor)
        requires
            self.wf(),
        ensures
            cursor.tick == self@.tick,
            cursor.offset == self@.newer.len(),
            self@.visible_to(cursor) == Seq::<E>::empty(),
    {
        let cursor = Cursor { tick: self.tick, offset: self.retained.len() - self.split };
        assert(self@.visible_to(cursor) =~= Seq::<E>::empty());
        cursor
    }

    /// Appends `event` to the current tick's buffer. It is visible to every
    /// reader at once. Fails only when the channel has a capacity and already
    /// retains that many events; the channel is then left as it was.
    pub fn send(&mut self, event: E) -> (outcome: Result<(), ChannelOverflow>)
        requires
            old(self).wf(),
        ensures
            final(self).wf(),
            old(self)@.has_room() ==> outcome is Ok && final(self)@ == old(self)@.sent(event),
            !old(self)@.has_room() ==> final(self)@ == old(self)@ && outcome == Err::<
                (),
                ChannelOverflow,
            >(ChannelOverflow { capacity: old(self)@.capacity->Some_0 }),
    {
        match self.capacity {
            Some(c) => {
                if c <= self.retained.len() {
                    return Err(ChannelOverflow { capacity: c });
                }
            },
            None => {},
        }
        self.retained.push(event);
        proof {
            assert(final(self)@.older =~= old(self)@.older);
            assert(final(self)@.newer =~= old(self)@.newer.push(event));
        }
        Ok(())
    }

    /// Index into the buffer of the oldest event that a reader at `cursor`
    /// has yet to see; the buffer's length when there is none.
    fn first_unseen(&self, cursor: Cursor) -> (start: usize)
        requires
            self.wf(),
        ensures
            start <= self.retained@.len(),
            self@.visible_to(cursor) == self.retained@.skip(start as int),
    {
        let len: usize = self.retained.len();
        let start: usize = if cursor.tick > self.tick {
            len
        } else if cursor.tick == self.tick {
            if cursor.offset <= len - self.split {
                self.split + cursor.offset
            } else {
                len
            }
        } else if cursor.tick + 1 == self.tick {
            if cursor.offset <= self.split {
                cursor.offset
            } else {
                self.split
            }
        } else {
            0
        };
        assert(self@.visible_to(cursor) =~= self.retained@.skip(start as int));
        start
    }

    /// Number of events that a reader at `cursor` has yet to see.
    pub fn pending(&self, cursor: Cursor) -> (n: usize)
        requires
            self.wf(),
        ensures
            n == self@.visible_to(cursor).len(),
    {
        self.retained.len() - self.first_unseen(cursor)
    }

    /// Hands out the oldest event that the reader has yet to see and moves the
    /// cursor past it; `None`, with the cursor left alone, when the reader has
    /// seen everything.
    pub fn next(&self, cursor: &mut Cursor) -> (event: Option<&E>)
        requires
            self.wf(),
        ensures
            match event {
                Some(e) => {
                    &&& self@.visible_to(*old(cursor)).len() > 0
                    &&& *e == self@.visible_to(*old(cursor))[0]
                    &&& self@.visible_to(*final(cursor)) == self@.visible_to(
                        *old(cursor),
                    ).drop_first()
                },
                None => {
                    &&& self@.visible_to(*old(cursor)).len() == 0
                    &&& *final(cursor) == *old(cursor)
                },
            },
    {
        let start: usize = self.first_unseen(*cursor);
        if start >= self.retained.len() {
            return None;
        }
        let ghost before = self@.visible_to(*cursor);
        if start < self.split {
            *cursor = Cursor { tick: self.tick - 1, offset: start + 1 };
        } else {
            *cursor = Cursor { tick: self.tick, offset: start - self.split + 1 };
        }
        proof {
            assert(self@.visible_to(*cursor) =~= before.drop_first());
        }
        Some(&self.retained[start])
    }

    /// Everything that the reader has yet to see, oldest first, and moves the
    /// cursor behind the newest event.
    pub fn read(&self, cursor: &mut Cursor) -> (events: &[E])
        requires
            self.wf(),
        ensures
            events@ == self@.visible_to(*old(cursor)),
            final(cursor).tick == self@.tick,
            final(cursor).offset == self@.newer.len(),
            self@.visible_to(*final(cursor)) == Seq::<E>::empty(),
    {
        let start: usize = self.first_unseen(*cursor);
        *cursor = self.end();
        let events = vstd::slice::slice_subrange(
            self.retained.as_slice(),
            start,
            self.retained.len(),
        );
        assert(events@ =~= self.retained@.skip(start as int));
        events
    }

    /// Completes a tick: what was sent during it stays for one more tick, what
    /// was sent during the tick before is dropped whether or not anyone read it.
    pub fn advance(&mut self)
        requires
            old(self).wf(),
            old(self)@.tick < u64::MAX,
        ensures
            final(self).wf(),
            final(self)@ == old(self)@.advanced(),
    {
        let kept = self.retained.split_off(self.split);
        self.retained = kept;
        self.split = self.retained.len();
        self.tick = self.tick + 1;
        proof {
            assert(final(self)@.older =~= old(self)@.newer);
            assert(final(self)@.newer =~= Seq::empty());
        }
    }
}

} // verus!
