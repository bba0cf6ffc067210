//! The USB report channel: the device/class pair treated as one compound
//! shared resource, its enumeration phase, and report submission with the
//! in-tick retry loop.
//!
//! The transport itself (endpoint hardware, enumeration traffic) is an
//! external collaborator; its observable replies — whether a poll advanced
//! the state machine, whether a report write would block — come in as plain
//! values, and everything decided from them is verified.

use vstd::prelude::*;

verus! {

/// Where the transport's enumeration state machine stands.
#[derive(Clone, Copy, PartialEq, Eq, Structural, Debug)]
pub enum UsbPhase {
    Idle,
    Enumerating,
    Operational,
}

/// Ordering of the phases along the one-way `Idle -> Enumerating ->
/// Operational` progression.
pub open spec fn phase_rank(p: UsbPhase) -> int {
    match p {
        UsbPhase::Idle => 0,
        UsbPhase::Enumerating => 1,
        UsbPhase::Operational => 2,
    }
}

/// The phase after one poll of the transport: an advancing poll moves one
/// step along the progression; `Operational` only loops on poll/report
/// cycles.
pub open spec fn poll_transition(p: UsbPhase, advanced: bool) -> UsbPhase {
    if advanced {
        match p {
            UsbPhase::Idle => UsbPhase::Enumerating,
            UsbPhase::Enumerating => UsbPhase::Operational,
            UsbPhase::Operational => UsbPhase::Operational,
        }
    } else {
        p
    }
}

/// Law: the progression is one-way — no poll, advancing or not, leads back to
/// `Idle` from a later phase; only a full device reset can. The phase rank
/// never decreases and grows by at most one step per poll.
pub proof fn lemma_no_return_to_idle(p: UsbPhase, advanced: bool)
    ensures
        poll_transition(p, advanced) is Idle ==> p is Idle,
        phase_rank(poll_transition(p, advanced)) >= phase_rank(p),
        phase_rank(poll_transition(p, advanced)) <= phase_rank(p) + 1,
{
}

/// The compound USB resource: the device and HID class halves are locked and
/// advanced together, never one without the other, so no torn view of the
/// pair exists.
pub struct UsbChannel {
    pub phase: UsbPhase,
}

impl UsbChannel {
    /// The channel as it stands at boot, before any enumeration traffic.
    pub fn new() -> (c: UsbChannel)
        ensures
            c.phase is Idle,
    {
        UsbChannel { phase: UsbPhase::Idle }
    }

    /// One joint poll of the device/class pair, performed by the USB service
    /// tasks under the compound lock. `advanced` is the transport's reply:
    /// whether this poll moved enumeration forward.
    pub fn on_poll(&mut self, advanced: bool)
        ensures
            final(self).phase == poll_transition(old(self).phase, advanced),
    {
        if advanced {
            let next: UsbPhase = match self.phase {
                UsbPhase::Idle => UsbPhase::Enumerating,
                UsbPhase::Enumerating => UsbPhase::Operational,
                UsbPhase::Operational => UsbPhase::Operational,
            };
            self.phase = next;
        }
    }
}

/// What a tick's report-submission step came to.
pub enum SubmitResult {
    /// The transport accepted the report after `attempts` would-block
    /// replies; `report` is the byte set actually handed over.
    Accepted { attempts: usize, report: Vec<u8> },
    /// Every try up to the tick's budget reported would-block; a
    /// higher-priority task or the next tick takes over.
    Preempted,
}

/// Submits one keycode report, retrying immediately on a transient
/// would-block reply. `busy` is the transport's reply sequence for this tick
/// (`true` = would block), its length the tick's retry budget. The accepted
/// report carries exactly the keycode set read at the start of the submission
/// step — retries never pick up a mutated set.
pub fn submit_with_retry(keycodes: &Vec<u8>, busy: &Vec<bool>) -> (out: SubmitResult)
    ensures
        (out is Accepted) <==> (exists|k: int| 0 <= k < busy@.len() && !busy@[k]),
        out matches SubmitResult::Accepted { attempts, report } ==> {
            &&& report@ =~= keycodes@
            &&& attempts < busy@.len()
            &&& !busy@[attempts as int]
            &&& forall|k: int| 0 <= k < attempts ==> busy@[k]
        },
        out is Preempted ==> forall|k: int| 0 <= k < busy@.len() ==> busy@[k],
{
    let report: Vec<u8> = copy_keycodes(keycodes);
    let n: usize = busy.len();
    let mut i: usize = 0;
    while i < n
        invariant
            i <= n,
            n == busy@.len(),
            report@ =~= keycodes@,
            forall|k: int| 0 <= k < i ==> busy@[k],
        decreases n - i,
    {
        if !busy[i] {
            return SubmitResult::Accepted { attempts: i, report };
        }
        i = i + 1;
    }
    SubmitResult::Preempted
}

/// Snapshots the keycode set a submission step starts from.
fn copy_keycodes(v: &Vec<u8>) -> (r: Vec<u8>)
    ensures
        r@ =~= v@,
{
    let mut r: Vec<u8> = Vec::new();
    let n: usize = v.len();
    let mut i: usize = 0;
    while i < n
        invariant
            i <= n,
            n == v@.len(),
            r@ =~= v@.take(i as int),
        decreases n - i,
    {
        r.push(v[i]);
        i = i + 1;
    }
    r
}

} // verus!
