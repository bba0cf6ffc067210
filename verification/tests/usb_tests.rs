use kbd_core::usb::{submit_with_retry, SubmitResult, UsbChannel, UsbPhase};

#[test]
fn enumeration_never_returns_to_idle() {
    let mut c = UsbChannel::new();
    assert_eq!(c.phase, UsbPhase::Idle);
    c.on_poll(false);
    assert_eq!(c.phase, UsbPhase::Idle);
    c.on_poll(true);
    assert_eq!(c.phase, UsbPhase::Enumerating);
    c.on_poll(false);
    assert_eq!(c.phase, UsbPhase::Enumerating);
    c.on_poll(true);
    assert_eq!(c.phase, UsbPhase::Operational);
    // operational loops on poll/report cycles, advancing or not
    for advanced in [true, false, true, true, false] {
        c.on_poll(advanced);
        assert_eq!(c.phase, UsbPhase::Operational);
    }
}

#[test]
fn retry_to_acceptance_carries_the_initial_keycode_set() {
    let keycodes: Vec<u8> = vec![4, 5, 40];
    let busy = vec![true, true, false, false];
    match submit_with_retry(&keycodes, &busy) {
        SubmitResult::Accepted { attempts, report } => {
            assert_eq!(attempts, 2);
            assert_eq!(report, vec![4, 5, 40]);
        }
        SubmitResult::Preempted => panic!("transport had a free slot"),
    }
}

#[test]
fn immediate_acceptance_takes_zero_retries() {
    let keycodes: Vec<u8> = vec![30];
    let busy = vec![false];
    match submit_with_retry(&keycodes, &busy) {
        SubmitResult::Accepted { attempts, report } => {
            assert_eq!(attempts, 0);
            assert_eq!(report, vec![30]);
        }
        SubmitResult::Preempted => panic!("transport had a free slot"),
    }
}

#[test]
fn busy_for_the_whole_budget_is_preempted() {
    let keycodes: Vec<u8> = vec![4];
    let busy = vec![true, true, true];
    assert!(matches!(submit_with_retry(&keycodes, &busy), SubmitResult::Preempted));
    let no_budget: Vec<bool> = Vec::new();
    assert!(matches!(submit_with_retry(&keycodes, &no_budget), SubmitResult::Preempted));
}

#[test]
fn empty_keycode_set_submits_an_empty_report() {
    let keycodes: Vec<u8> = Vec::new();
    let busy = vec![false];
    match submit_with_retry(&keycodes, &busy) {
        SubmitResult::Accepted { attempts, report } => {
            assert_eq!(attempts, 0);
            assert!(report.is_empty());
        }
        SubmitResult::Preempted => panic!("transport had a free slot"),
    }
}
