use netsim::tick::TickClock;
use netsim::channel::{ReliableReceiver, SequencedReceiver};
use netsim::input::{classify_input, InputBuffer, InputDisposition};

#[test]
fn tick_clock_advances_by_one() {
    let mut c = TickClock::new(2);
    assert_eq!(c.tick, 0);
    c.advance();
    c.advance();
    assert_eq!(c.tick, 2);
    assert_eq!(c.target_tick(), 4);
    c.reset();
    assert_eq!(c.tick, 0);
}

#[test]
fn sequenced_channel_drops_stale_and_duplicate() {
    let mut r = SequencedReceiver::new();
    assert!(r.accept(5));
    assert!(!r.accept(5), "duplicate must be dropped");
    assert!(!r.accept(3), "stale must be dropped");
    assert!(r.accept(7));
    assert_eq!(r.latest, Some(7));
}

#[test]
fn reliable_channel_delivers_in_send_order() {
    let mut r: ReliableReceiver<&str> = ReliableReceiver::new();
    assert!(r.on_receive(1, "b"));
    assert!(r.on_receive(2, "c"));
    assert_eq!(r.pop_ready(), None, "seq 0 has not arrived yet");
    assert!(r.on_receive(0, "a"));
    assert!(!r.on_receive(1, "dup"), "duplicate seq is dropped");
    assert_eq!(r.pop_ready(), Some("a"));
    assert_eq!(r.pop_ready(), Some("b"));
    assert_eq!(r.pop_ready(), Some("c"));
    assert_eq!(r.pop_ready(), None);
}

#[test]
fn input_buffer_records_and_evicts() {
    let mut b = InputBuffer::new(7, 10, 3);
    let m = b.record(1);
    assert_eq!(m.tick, 10);
    assert_eq!(m.entity, 7);
    assert_eq!(m.actions, 1);
    b.record(2);
    b.record(3);
    // full: recording tick 13 evicts tick 10
    b.record(4);
    assert_eq!(b.get(10), None);
    assert_eq!(b.get(11), Some(2));
    assert_eq!(b.get(13), Some(4));
    assert_eq!(b.latest_or(0), 4);
}

#[test]
fn input_buffer_acknowledge_drops_prefix() {
    let mut b = InputBuffer::new(1, 5, 8);
    b.record(10);
    b.record(11);
    b.record(12);
    b.acknowledge(6);
    assert_eq!(b.get(5), None);
    assert_eq!(b.get(6), None);
    assert_eq!(b.get(7), Some(12));
}

#[test]
fn input_buffer_reset_clears() {
    let mut b = InputBuffer::new(1, 5, 8);
    b.record(10);
    b.reset(0);
    assert_eq!(b.get(5), None);
    assert_eq!(b.latest_or(9), 9);
}

#[test]
fn late_input_policy() {
    assert_eq!(classify_input(10, 10, 2), InputDisposition::Apply);
    assert_eq!(classify_input(10, 12, 2), InputDisposition::Apply);
    assert_eq!(classify_input(10, 9, 2), InputDisposition::ApplyNext);
    assert_eq!(classify_input(10, 8, 2), InputDisposition::ApplyNext);
    assert_eq!(classify_input(10, 7, 2), InputDisposition::Discard);
    assert_eq!(classify_input(10, 9, 0), InputDisposition::Discard);
}
