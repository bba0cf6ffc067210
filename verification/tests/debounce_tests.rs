use kbd_core::debounce::DebounceState;
use kbd_core::event::{Event, EventKind};

fn grid(rows: u8, cols: u8, closed: &[(u8, u8)]) -> Vec<bool> {
    let n = rows as usize * cols as usize;
    let mut g = vec![false; n];
    for &(r, c) in closed {
        g[r as usize * cols as usize + c as usize] = true;
    }
    g
}

#[test]
fn fewer_than_threshold_samples_never_confirm() {
    let mut d = DebounceState::new(4, 12, 5);
    let pressed = grid(4, 12, &[(1, 2)]);
    for _ in 0..4 {
        let events = d.sample(&pressed);
        assert!(events.is_empty());
    }
    // the fifth consecutive identical sample confirms
    let events = d.sample(&pressed);
    assert_eq!(events.len(), 1);
    assert_eq!(events[0], Event { kind: EventKind::Press, row: 1, col: 2 });
}

#[test]
fn hold_six_ticks_confirms_exactly_once_on_tick_five() {
    let mut d = DebounceState::new(2, 3, 5);
    let pressed = grid(2, 3, &[(1, 2)]);
    let mut confirmed_at: Vec<usize> = Vec::new();
    for tick in 1..=6usize {
        let events = d.sample(&pressed);
        if !events.is_empty() {
            assert_eq!(events.len(), 1);
            assert_eq!(events[0], Event { kind: EventKind::Press, row: 1, col: 2 });
            confirmed_at.push(tick);
        }
    }
    assert_eq!(confirmed_at, vec![5]);
}

#[test]
fn bouncing_contact_resets_the_counter() {
    let mut d = DebounceState::new(1, 1, 5);
    let closed = vec![true];
    let open = vec![false];
    // four closed samples, a bounce open, four closed again: never five in a row
    for _ in 0..4 {
        assert!(d.sample(&closed).is_empty());
    }
    assert!(d.sample(&open).is_empty());
    for _ in 0..4 {
        assert!(d.sample(&closed).is_empty());
    }
    // only the fifth consecutive closed sample confirms
    let events = d.sample(&closed);
    assert_eq!(events.len(), 1);
    assert_eq!(events[0].kind, EventKind::Press);
}

#[test]
fn release_confirms_after_threshold_open_samples() {
    let mut d = DebounceState::new(1, 2, 3);
    let closed = grid(1, 2, &[(0, 1)]);
    let open = grid(1, 2, &[]);
    for _ in 0..2 {
        assert!(d.sample(&closed).is_empty());
    }
    let events = d.sample(&closed);
    assert_eq!(events.len(), 1);
    assert_eq!(events[0], Event { kind: EventKind::Press, row: 0, col: 1 });
    for _ in 0..2 {
        assert!(d.sample(&open).is_empty());
    }
    let events = d.sample(&open);
    assert_eq!(events.len(), 1);
    assert_eq!(events[0], Event { kind: EventKind::Release, row: 0, col: 1 });
}

#[test]
fn simultaneous_confirmations_come_in_row_major_order() {
    let mut d = DebounceState::new(2, 2, 2);
    let pressed = grid(2, 2, &[(1, 1), (0, 0), (1, 0)]);
    assert!(d.sample(&pressed).is_empty());
    let events = d.sample(&pressed);
    assert_eq!(events.len(), 3);
    assert_eq!(events[0], Event { kind: EventKind::Press, row: 0, col: 0 });
    assert_eq!(events[1], Event { kind: EventKind::Press, row: 1, col: 0 });
    assert_eq!(events[2], Event { kind: EventKind::Press, row: 1, col: 1 });
}

#[test]
fn threshold_one_confirms_on_the_first_differing_sample() {
    let mut d = DebounceState::new(1, 1, 1);
    let events = d.sample(&vec![true]);
    assert_eq!(events.len(), 1);
    assert_eq!(events[0], Event { kind: EventKind::Press, row: 0, col: 0 });
    let events = d.sample(&vec![false]);
    assert_eq!(events.len(), 1);
    assert_eq!(events[0].kind, EventKind::Release);
}

#[test]
fn steady_grid_confirms_nothing() {
    let mut d = DebounceState::new(4, 12, 5);
    let open = grid(4, 12, &[]);
    for _ in 0..10 {
        assert!(d.sample(&open).is_empty());
    }
}
