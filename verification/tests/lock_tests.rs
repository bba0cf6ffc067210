use kbd_core::lock::Sched;
use kbd_core::pipeline::{
    keyboard_plan, service_usb, LAYOUT_RESOURCE, REGISTER_EVENT_TASK, TICK_TASK,
    USB_CHANNEL_RESOURCE, USB_RX_TASK, USB_TX_TASK,
};
use kbd_core::usb::{UsbChannel, UsbPhase};

#[test]
fn keyboard_plan_passes_boot_validation() {
    let plan = keyboard_plan();
    assert!(plan.validate());
    // ceilings computed from the declared access sets
    assert_eq!(plan.ceiling(USB_CHANNEL_RESOURCE), 3);
    assert_eq!(plan.ceiling(LAYOUT_RESOURCE), 1);
    // the layout's two accessors share one priority level; the USB channel's do not
    assert!(plan.equal_priority_accessors(LAYOUT_RESOURCE));
    assert!(!plan.equal_priority_accessors(USB_CHANNEL_RESOURCE));
}

#[test]
fn held_channel_blocks_every_other_accessor() {
    let plan = keyboard_plan();
    let mut s = Sched::new(plan);
    // the periodic tick starts on an idle core
    assert!(s.try_dispatch(TICK_TASK));
    // it locks the compound USB channel for the report submission
    s.acquire(USB_CHANNEL_RESOURCE);
    // a USB interrupt outranks the tick (3 > 1) but not the channel's
    // ceiling (3), so its service task cannot start mid-critical-section
    assert!(!s.try_dispatch(USB_TX_TASK));
    assert!(!s.try_dispatch(USB_RX_TASK));
    s.release(USB_CHANNEL_RESOURCE);
    // released: the same trigger is now served at once
    assert!(s.try_dispatch(USB_TX_TASK));
    s.acquire(USB_CHANNEL_RESOURCE);
    s.release(USB_CHANNEL_RESOURCE);
    s.finish();
    s.finish();
}

#[test]
fn equal_priority_tasks_never_preempt_each_other() {
    let plan = keyboard_plan();
    let mut s = Sched::new(plan);
    assert!(s.try_dispatch(TICK_TASK));
    // the event-registration consumer shares priority 1 with the tick:
    // on one core it can never run in the middle of it
    assert!(!s.try_dispatch(REGISTER_EVENT_TASK));
    s.finish();
    assert!(s.try_dispatch(REGISTER_EVENT_TASK));
    s.acquire(LAYOUT_RESOURCE);
    // while the consumer updates layout state, the tick cannot start:
    // its priority does not exceed the layout ceiling
    assert!(!s.try_dispatch(TICK_TASK));
    s.release(LAYOUT_RESOURCE);
    s.finish();
}

#[test]
fn usb_interrupt_mid_submission_is_deferred_whole() {
    let plan = keyboard_plan();
    let mut s = Sched::new(plan);
    let mut usb = UsbChannel::new();
    assert!(s.try_dispatch(TICK_TASK));
    s.acquire(USB_CHANNEL_RESOURCE);
    // the interrupt fires mid-critical-section: the whole service body is
    // deferred and the channel state is untouched — no torn view
    assert!(!service_usb(&mut s, &mut usb, USB_RX_TASK, USB_CHANNEL_RESOURCE, true));
    assert_eq!(usb.phase, UsbPhase::Idle);
    s.release(USB_CHANNEL_RESOURCE);
    // after release the pending trigger is served and the transport advances
    assert!(service_usb(&mut s, &mut usb, USB_RX_TASK, USB_CHANNEL_RESOURCE, true));
    assert_eq!(usb.phase, UsbPhase::Enumerating);
    s.finish();
}

#[test]
fn higher_priority_usb_task_preempts_unlocked_tick() {
    let plan = keyboard_plan();
    let mut s = Sched::new(plan);
    assert!(s.try_dispatch(TICK_TASK));
    // outside any critical section, the USB service task preempts freely
    assert!(s.try_dispatch(USB_RX_TASK));
    s.acquire(USB_CHANNEL_RESOURCE);
    s.release(USB_CHANNEL_RESOURCE);
    s.finish();
    s.finish();
}
