//! The fixed-rate scan -> debounce -> layout -> report pipeline and the
//! static task/resource plan of the keyboard firmware.
//!
//! One tick runs: acknowledge the timer, scan the matrix (hardware, outside),
//! feed the raw grid through [`crate::debounce::DebounceState::sample`], apply
//! the confirmed events to the external layout engine in row-major order,
//! advance the layout once, then act on what the layout emitted:
//! the reserved bootloader signal ends the session with the irreversible jump
//! and suppresses the report; otherwise the active keycode set is read once
//! and submitted over the locked USB channel with in-tick retry
//! ([`crate::usb::submit_with_retry`]). [`tick_effects`] is that decision,
//! verified; the caller performs the jump or the transfer it returns.

use vstd::prelude::*;

use crate::lock::{LockPlan, Sched, TaskDecl, TriggerSource};
use crate::usb::{poll_transition, submit_with_retry, SubmitResult, UsbChannel};

verus! {

/// Resource id of the compound USB device/class pair.
pub const USB_CHANNEL_RESOURCE: usize = 0;

/// Resource id of the layout-engine state.
pub const LAYOUT_RESOURCE: usize = 1;

/// Task id of the event-registration consumer.
pub const REGISTER_EVENT_TASK: usize = 0;

/// Task id of the periodic scan/report tick.
pub const TICK_TASK: usize = 1;

/// Task id of the transfer-complete USB service task.
pub const USB_TX_TASK: usize = 2;

/// Task id of the wake USB service task.
pub const USB_RX_TASK: usize = 3;

/// The domain signal a layout advance may emit, outside the keycode stream.
#[derive(Clone, Copy, PartialEq, Eq, Structural, Debug)]
pub enum CustomSignal {
    /// The reserved enter-bootloader signal: terminal by design.
    Bootloader,
    /// Any other layout-defined signal; the pipeline ignores it.
    Other,
}

/// Per-session latch for the terminal bootloader path: the jump is taken at
/// most once, and nothing runs after it short of a full device reset.
pub struct Session {
    pub bootloader_requested: bool,
}

impl Session {
    /// A fresh session, as after power-on.
    pub fn new() -> (s: Session)
        ensures
            !s.bootloader_requested,
    {
        Session { bootloader_requested: false }
    }
}

/// How a tick ended after the layout advance.
pub enum TickOutcome {
    /// The layout emitted the reserved signal: jump to the system bootloader
    /// now; no report is submitted this tick.
    EnterBootloader,
    /// The transport accepted the report after `attempts` would-block
    /// replies; `report` is exactly the keycode set read when the submission
    /// step began.
    Reported { attempts: usize, report: Vec<u8> },
    /// The transport stayed busy for the whole retry budget.
    Preempted,
}

/// Decides the tail of one tick (steps after the layout advance) from the
/// layout's replies: `emitted` is the signal the advance returned, `keycodes`
/// the active keycode set read once at the start of the submission step, and
/// `busy` the transport's would-block replies for this tick.
pub fn tick_effects(
    session: &mut Session,
    emitted: Option<CustomSignal>,
    keycodes: &Vec<u8>,
    busy: &Vec<bool>,
) -> (out: TickOutcome)
    requires
        !old(session).bootloader_requested,
    ensures
        final(session).bootloader_requested == (out is EnterBootloader),
        (out is EnterBootloader) <==> emitted == Some(CustomSignal::Bootloader),
        out matches TickOutcome::Reported { attempts, report } ==> {
            &&& report@ =~= keycodes@
            &&& attempts < busy@.len()
            &&& !busy@[attempts as int]
            &&& forall|k: int| 0 <= k < attempts ==> busy@[k]
        },
        emitted != Some(CustomSignal::Bootloader) ==> ((out is Reported) <==> exists|k: int|
            0 <= k < busy@.len() && !busy@[k]),
        out is Preempted ==> forall|k: int| 0 <= k < busy@.len() ==> busy@[k],
{
    match emitted {
        Some(CustomSignal::Bootloader) => {
            session.bootloader_requested = true;
            TickOutcome::EnterBootloader
        },
        _ => {
            match submit_with_retry(keycodes, busy) {
                SubmitResult::Accepted { attempts, report } => TickOutcome::Reported {
                    attempts,
                    report,
                },
                SubmitResult::Preempted => TickOutcome::Preempted,
            }
        },
    }
}

/// The body both USB service tasks run when their interrupt fires: dispatch
/// under the ceiling rule, take the single compound lock on the device/class
/// pair (never sequential locks on the two halves), poll the transport once,
/// and release on the way out. Returns whether the task ran at all — a
/// refused dispatch (for instance while the tick holds the channel for a
/// report) leaves everything, channel included, exactly as it was, and the
/// completed task restores the scheduler to its pre-interrupt state.
pub fn service_usb(
    sched: &mut Sched,
    channel: &mut UsbChannel,
    task: usize,
    channel_resource: usize,
    advanced: bool,
) -> (ran: bool)
    requires
        old(sched).inv(),
        task < old(sched).plan.tasks@.len(),
        channel_resource < old(sched).holder@.len(),
        old(sched).plan.tasks@[task as int].accesses@[channel_resource as int],
    ensures
        final(sched).inv(),
        final(sched).plan == old(sched).plan,
        final(sched).stack@ =~= old(sched).stack@,
        final(sched).holder@ =~= old(sched).holder@,
        ran == old(sched).spec_can_dispatch(task as int),
        ran ==> final(channel).phase == poll_transition(old(channel).phase, advanced),
        !ran ==> final(channel).phase == old(channel).phase,
{
    if sched.try_dispatch(task) {
        proof {
            // the freshly dispatched task was not on the stack before the
            // interrupt, so it holds nothing yet
            assert forall|k: int|
                0 <= k < old(sched).stack@.len() implies old(sched).stack@[k] != task by {
                if old(sched).stack@[k] == task {
                    let top = old(sched).stack@.len() - 1;
                    if k < top {
                        assert(old(sched).prio_of(old(sched).stack@[k] as int) < old(
                            sched,
                        ).prio_of(old(sched).stack@[top] as int));
                    }
                }
            }
            assert forall|q: int|
                0 <= q < sched.holder@.len() implies #[trigger] sched.holder@[q] != Some(
                task,
            ) by {
                if sched.holder@[q] is Some {
                    let k = choose|k: int|
                        0 <= k < old(sched).stack@.len() && #[trigger] old(sched).stack@[k]
                            == sched.holder@[q]->0;
                }
            }
        }
        sched.acquire(channel_resource);
        channel.on_poll(advanced);
        sched.release(channel_resource);
        sched.finish();
        proof {
            assert(sched.stack@ =~= old(sched).stack@);
            assert(sched.holder@ =~= old(sched).holder@);
        }
        true
    } else {
        false
    }
}

/// The firmware's static plan: four tasks over two shared resources.
///
/// The USB device and HID class are one compound resource (id
/// [`USB_CHANNEL_RESOURCE`]) so the pair is always locked jointly; the layout
/// state (id [`LAYOUT_RESOURCE`]) is shared by the tick and the
/// event-registration consumer under the same ceiling discipline. The two USB
/// service tasks run at the highest priority; their shared resource's ceiling
/// therefore equals that priority, and the tick's report submission holds the
/// channel against them.
pub fn keyboard_plan() -> (plan: LockPlan)
    ensures
        plan.wf(),
        plan.n_resources == 2,
        plan.tasks@.len() == 4,
        plan.tasks@[REGISTER_EVENT_TASK as int].priority == 1,
        plan.tasks@[REGISTER_EVENT_TASK as int].trigger is SoftwareSpawn,
        !plan.tasks@[REGISTER_EVENT_TASK as int].accesses@[USB_CHANNEL_RESOURCE as int],
        plan.tasks@[REGISTER_EVENT_TASK as int].accesses@[LAYOUT_RESOURCE as int],
        plan.tasks@[TICK_TASK as int].priority == 1,
        plan.tasks@[TICK_TASK as int].trigger is PeriodicTimer,
        plan.tasks@[TICK_TASK as int].accesses@[USB_CHANNEL_RESOURCE as int],
        plan.tasks@[TICK_TASK as int].accesses@[LAYOUT_RESOURCE as int],
        plan.tasks@[USB_TX_TASK as int].priority == 3,
        plan.tasks@[USB_TX_TASK as int].trigger is HardwareInterrupt,
        plan.tasks@[USB_TX_TASK as int].accesses@[USB_CHANNEL_RESOURCE as int],
        !plan.tasks@[USB_TX_TASK as int].accesses@[LAYOUT_RESOURCE as int],
        plan.tasks@[USB_RX_TASK as int].priority == 3,
        plan.tasks@[USB_RX_TASK as int].trigger is HardwareInterrupt,
        plan.tasks@[USB_RX_TASK as int].accesses@[USB_CHANNEL_RESOURCE as int],
        !plan.tasks@[USB_RX_TASK as int].accesses@[LAYOUT_RESOURCE as int],
        crate::lock::spec_ceiling(plan, USB_CHANNEL_RESOURCE as int) == 3,
        crate::lock::spec_ceiling(plan, LAYOUT_RESOURCE as int) == 1,
{
    let mut register_accesses: Vec<bool> = Vec::new();
    register_accesses.push(false);
    register_accesses.push(true);
    let mut tick_accesses: Vec<bool> = Vec::new();
    tick_accesses.push(true);
    tick_accesses.push(true);
    let mut usb_tx_accesses: Vec<bool> = Vec::new();
    usb_tx_accesses.push(true);
    usb_tx_accesses.push(false);
    let mut usb_rx_accesses: Vec<bool> = Vec::new();
    usb_rx_accesses.push(true);
    usb_rx_accesses.push(false);
    let mut tasks: Vec<TaskDecl> = Vec::new();
    tasks.push(
        TaskDecl {
            priority: 1,
            trigger: TriggerSource::SoftwareSpawn,
            accesses: register_accesses,
        },
    );
    tasks.push(
        TaskDecl { priority: 1, trigger: TriggerSource::PeriodicTimer, accesses: tick_accesses },
    );
    tasks.push(
        TaskDecl {
            priority: 3,
            trigger: TriggerSource::HardwareInterrupt,
            accesses: usb_tx_accesses,
        },
    );
    tasks.push(
        TaskDecl {
            priority: 3,
            trigger: TriggerSource::HardwareInterrupt,
            accesses: usb_rx_accesses,
        },
    );
    let plan = LockPlan { n_resources: 2, tasks };
    proof {
        reveal_with_fuel(crate::lock::ceiling_upto, 5);
        assert(crate::lock::spec_ceiling(plan, 0) == 3);
        assert(crate::lock::spec_ceiling(plan, 1) == 1);
    }
    plan
}

} // verus!
