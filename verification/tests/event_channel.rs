use aspect_ecs::event::{ChannelOverflow, Cursor, EventChannel};

#[test]
fn fresh_reader_sees_what_was_sent() {
    let mut channel: EventChannel<u32> = EventChannel::new();
    assert_eq!(channel.send(1), Ok(()));
    assert_eq!(channel.send(2), Ok(()));
    assert_eq!(channel.send(3), Ok(()));
    let mut cursor = Cursor::start();
    assert_eq!(channel.pending(cursor), 3);
    assert_eq!(channel.read(&mut cursor), &[1, 2, 3]);
    assert_eq!(channel.pending(cursor), 0);
    assert!(channel.read(&mut cursor).is_empty());
    assert_eq!(channel.len(), 3);
}

#[test]
fn n_events_are_visible_for_two_ticks_then_gone() {
    for n in [0usize, 1, 5] {
        let mut channel: EventChannel<usize> = EventChannel::new();
        // three ticks go by first: the events are sent while the counter reads 3
        channel.advance();
        channel.advance();
        channel.advance();
        assert_eq!(channel.tick(), 3);
        for i in 0..n {
            channel.send(i).unwrap();
        }
        // the tick in which they were sent
        assert_eq!(channel.pending(Cursor::start()), n);
        channel.advance();
        // the following tick
        assert_eq!(channel.pending(Cursor::start()), n);
        channel.advance();
        // from then on
        assert_eq!(channel.pending(Cursor::start()), 0);
        channel.advance();
        assert_eq!(channel.pending(Cursor::start()), 0);
        assert_eq!(channel.len(), 0);
        assert_eq!(channel.tick(), 6);
    }
}

#[test]
fn events_are_dropped_whether_or_not_they_were_read() {
    let mut read: EventChannel<u8> = EventChannel::new();
    let mut unread: EventChannel<u8> = EventChannel::new();
    read.send(1).unwrap();
    unread.send(1).unwrap();
    let mut cursor = Cursor::start();
    assert_eq!(read.read(&mut cursor), &[1]);
    read.advance();
    unread.advance();
    assert_eq!(read.pending(Cursor::start()), unread.pending(Cursor::start()));
    read.advance();
    unread.advance();
    assert_eq!(read.len(), 0);
    assert_eq!(unread.len(), 0);
}

#[test]
fn readers_do_not_starve_each_other() {
    let mut channel: EventChannel<u32> = EventChannel::new();
    channel.send(1).unwrap();
    channel.send(2).unwrap();
    let mut first = Cursor::start();
    let mut second = Cursor::start();
    assert_eq!(channel.read(&mut first), &[1, 2]);
    assert_eq!(channel.read(&mut second), &[1, 2]);
    channel.send(3).unwrap();
    assert_eq!(channel.read(&mut second), &[3]);
    assert_eq!(channel.read(&mut first), &[3]);
}

#[test]
fn reader_continues_across_a_tick() {
    let mut channel: EventChannel<u32> = EventChannel::new();
    channel.send(1).unwrap();
    channel.send(2).unwrap();
    let mut cursor = Cursor::start();
    assert_eq!(channel.next(&mut cursor), Some(&1));
    channel.advance();
    channel.send(3).unwrap();
    assert_eq!(channel.pending(cursor), 2);
    assert_eq!(channel.read(&mut cursor), &[2, 3]);
    assert_eq!(cursor, Cursor { tick: 1, offset: 1 });
}

#[test]
fn reader_that_falls_behind_skips_what_was_dropped() {
    let mut channel: EventChannel<u32> = EventChannel::new();
    channel.send(1).unwrap();
    let mut cursor = Cursor::start();
    channel.advance();
    channel.send(2).unwrap();
    channel.advance();
    channel.send(3).unwrap();
    // 1 is gone; the reader is not told
    assert_eq!(channel.read(&mut cursor), &[2, 3]);
    channel.advance();
    channel.advance();
    channel.advance();
    assert!(channel.read(&mut cursor).is_empty());
    assert_eq!(cursor, channel.end());
}

#[test]
fn next_walks_through_both_ticks_in_order() {
    let mut channel: EventChannel<u32> = EventChannel::new();
    channel.send(1).unwrap();
    channel.send(2).unwrap();
    channel.advance();
    channel.send(3).unwrap();
    let mut cursor = Cursor::start();
    assert_eq!(channel.next(&mut cursor), Some(&1));
    assert_eq!(channel.next(&mut cursor), Some(&2));
    assert_eq!(channel.next(&mut cursor), Some(&3));
    let at_end = cursor;
    assert_eq!(channel.next(&mut cursor), None);
    assert_eq!(cursor, at_end);
    // a caller can start over with a fresh cursor
    let mut again = Cursor::start();
    assert_eq!(channel.next(&mut again), Some(&1));
}

#[test]
fn end_cursor_sees_only_later_events() {
    let mut channel: EventChannel<u32> = EventChannel::new();
    channel.send(1).unwrap();
    let mut cursor = channel.end();
    assert_eq!(cursor, Cursor { tick: 0, offset: 1 });
    assert_eq!(channel.pending(cursor), 0);
    channel.send(2).unwrap();
    assert_eq!(channel.read(&mut cursor), &[2]);
}

#[test]
fn cursor_from_a_later_tick_sees_nothing() {
    let mut channel: EventChannel<u32> = EventChannel::new();
    channel.send(1).unwrap();
    let mut cursor = Cursor { tick: 9, offset: 0 };
    assert_eq!(channel.pending(cursor), 0);
    assert_eq!(channel.next(&mut cursor), None);
    assert_eq!(cursor, Cursor { tick: 9, offset: 0 });
}

#[test]
fn bounded_channel_signals_overflow() {
    let mut channel: EventChannel<u32> = EventChannel::with_capacity(2);
    assert_eq!(channel.send(1), Ok(()));
    channel.advance();
    assert_eq!(channel.send(2), Ok(()));
    // what is retained from the tick before counts too
    assert_eq!(channel.send(3), Err(ChannelOverflow { capacity: 2 }));
    assert_eq!(channel.len(), 2);
    let mut cursor = Cursor::start();
    assert_eq!(channel.read(&mut cursor), &[1, 2]);
    channel.advance();
    // room again once the oldest are dropped
    assert_eq!(channel.send(4), Ok(()));
}

#[test]
fn channel_without_room_at_all() {
    let mut channel: EventChannel<u32> = EventChannel::with_capacity(0);
    assert_eq!(channel.send(1), Err(ChannelOverflow { capacity: 0 }));
    assert_eq!(channel.len(), 0);
}

#[test]
fn channel_can_join_at_a_later_tick() {
    let mut channel: EventChannel<u32> = EventChannel::starting_at(7, None);
    assert_eq!(channel.tick(), 7);
    assert!(channel.can_advance());
    channel.send(1).unwrap();
    assert_eq!(channel.pending(Cursor::start()), 1);
    let last: EventChannel<u32> = EventChannel::starting_at(u64::MAX, Some(1));
    assert!(!last.can_advance());
}
