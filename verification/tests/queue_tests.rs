use kbd_core::event::{Event, EventKind};
use kbd_core::queue::{EventQueue, QUEUE_CAPACITY};

fn press(row: u8, col: u8) -> Event {
    Event { kind: EventKind::Press, row, col }
}

#[test]
fn capacity_is_eight() {
    assert_eq!(QUEUE_CAPACITY, 8);
}

#[test]
fn eight_inserts_succeed_ninth_fails_order_kept() {
    let mut q = EventQueue::new();
    for i in 0..8u8 {
        assert!(q.insert(press(0, i)));
    }
    assert_eq!(q.len(), 8);
    // the ninth insertion fails deterministically...
    assert!(!q.insert(press(1, 0)));
    // ...and the first eight are uncorrupted, draining in insertion order
    assert_eq!(q.len(), 8);
    let drained = q.drain_all();
    assert_eq!(drained.len(), 8);
    for i in 0..8u8 {
        assert_eq!(drained[i as usize], press(0, i));
    }
    assert_eq!(q.len(), 0);
}

#[test]
fn overflow_then_drain_one_then_insert_again() {
    let mut q = EventQueue::new();
    for i in 0..8u8 {
        assert!(q.insert(press(2, i)));
    }
    assert!(!q.insert(press(3, 0)));
    let mut drained: Vec<Event> = Vec::new();
    drained.push(q.drain_one().unwrap());
    assert!(q.insert(press(3, 0)));
    while let Some(e) = q.drain_one() {
        drained.push(e);
    }
    // final drained order: the original eight, then the late-registered one
    assert_eq!(drained.len(), 9);
    for i in 0..8u8 {
        assert_eq!(drained[i as usize], press(2, i));
    }
    assert_eq!(drained[8], press(3, 0));
}

#[test]
fn drain_on_empty_returns_none() {
    let mut q = EventQueue::new();
    assert!(q.drain_one().is_none());
    assert_eq!(q.len(), 0);
}
