use kbd_core::debounce::DebounceState;
use kbd_core::event::EventKind;
use kbd_core::pipeline::{tick_effects, CustomSignal, Session, TickOutcome};

// A stand-in layout engine for the tests: maps a matrix position straight to
// one keycode and emits no custom signal. The real engine is an external
// collaborator; the pipeline only sees its replies.
fn keycode_of(row: u8, col: u8, cols: u8) -> u8 {
    4 + row * cols + col
}

#[test]
fn held_key_appears_in_reports_from_the_confirming_tick_onward() {
    let rows = 2u8;
    let cols = 3u8;
    let mut debounce = DebounceState::new(rows, cols, 5);
    let mut session = Session::new();
    let mut active: Vec<u8> = Vec::new();

    let mut raw = vec![false; rows as usize * cols as usize];
    raw[1 * cols as usize + 2] = true;  // the switch held down all six ticks
    let expected = keycode_of(1, 2, cols);

    let mut reports: Vec<Vec<u8>> = Vec::new();
    for _tick in 1..=6usize {
        // scan + debounce
        let events = debounce.sample(&raw);
        // apply confirmed events to the (stand-in) layout, in scan order
        for e in &events {
            let k = keycode_of(e.row, e.col, cols);
            match e.kind {
                EventKind::Press => active.push(k),
                EventKind::Release => active.retain(|&x| x != k),
            }
        }
        // advance the layout once; it emits no signal here
        let emitted: Option<CustomSignal> = None;
        // submit over an immediately-free transport
        let busy = vec![false];
        match tick_effects(&mut session, emitted, &active, &busy) {
            TickOutcome::Reported { report, .. } => reports.push(report),
            TickOutcome::EnterBootloader => panic!("no bootloader signal was emitted"),
            TickOutcome::Preempted => panic!("transport was free"),
        }
    }
    assert_eq!(reports.len(), 6);
    // ticks 1..=4: below threshold, the keycode set stays empty
    for t in 0..4 {
        assert!(reports[t].is_empty());
    }
    // confirmed on tick 5; present in every report from then on
    assert_eq!(reports[4], vec![expected]);
    assert_eq!(reports[5], vec![expected]);
}

#[test]
fn bootloader_signal_ends_the_tick_without_a_report() {
    let mut session = Session::new();
    let active: Vec<u8> = vec![4, 5];
    let busy = vec![false];  // the transport would even accept at once
    let out = tick_effects(&mut session, Some(CustomSignal::Bootloader), &active, &busy);
    assert!(matches!(out, TickOutcome::EnterBootloader));
    // the terminal transition is latched: the session never ticks again
    assert!(session.bootloader_requested);
}

#[test]
fn other_custom_signals_do_not_enter_the_bootloader() {
    let mut session = Session::new();
    let active: Vec<u8> = vec![7];
    let busy = vec![false];
    match tick_effects(&mut session, Some(CustomSignal::Other), &active, &busy) {
        TickOutcome::Reported { attempts, report } => {
            assert_eq!(attempts, 0);
            assert_eq!(report, vec![7]);
        }
        _ => panic!("an unreserved signal must not suppress the report"),
    }
    assert!(!session.bootloader_requested);
}

#[test]
fn quiet_ticks_leave_the_keycode_set_unchanged() {
    let rows = 4u8;
    let cols = 12u8;
    let mut debounce = DebounceState::new(rows, cols, 5);
    let mut session = Session::new();
    let active: Vec<u8> = vec![9, 10];  // whatever the layout already reports
    let raw = vec![false; rows as usize * cols as usize];
    for _tick in 0..5 {
        let events = debounce.sample(&raw);
        // zero confirmed events: nothing is applied to the layout, so the
        // active set can only move by layout-internal timed effects
        assert!(events.is_empty());
        let busy = vec![false];
        match tick_effects(&mut session, None, &active, &busy) {
            TickOutcome::Reported { report, .. } => assert_eq!(report, vec![9, 10]),
            _ => panic!("transport was free and no signal was emitted"),
        }
    }
}

#[test]
fn report_is_retried_to_acceptance_within_the_tick() {
    let mut session = Session::new();
    let active: Vec<u8> = vec![4, 22, 30];
    let busy = vec![true, true, true, false];
    match tick_effects(&mut session, None, &active, &busy) {
        TickOutcome::Reported { attempts, report } => {
            assert_eq!(attempts, 3);
            assert_eq!(report, vec![4, 22, 30]);
        }
        _ => panic!("the fourth try was free"),
    }
}
