//! The resource lock manager: priority-ceiling mutual exclusion over a fixed,
//! statically-declared task set on a single execution core.
//!
//! Every task has a static priority and declares up front which shared
//! resources it may touch. A resource's ceiling is the highest priority among
//! its declared accessors. Holding a resource raises the holder's effective
//! priority to the ceiling, so no task that could also touch the resource can
//! be dispatched until release — critical sections on one resource never
//! interleave, and a lock request by the running task never blocks.
//!
//! [`Sched`] is an executable model of the dispatcher: a preemption stack of
//! started-but-unfinished tasks (the running task on top) plus the current
//! holder of each resource. Its methods are the only transitions, and each
//! preserves [`Sched::inv`].

use vstd::prelude::*;

verus! {

/// What releases a task: the periodic scan timer, a hardware interrupt line,
/// or a software spawn from another task.
#[derive(Clone, Copy, PartialEq, Eq, Structural, Debug)]
pub enum TriggerSource {
    PeriodicTimer,
    HardwareInterrupt,
    SoftwareSpawn,
}

/// A task's static declaration, fixed at boot.
pub struct TaskDecl {
    pub priority: u8,
    pub trigger: TriggerSource,
    /// `accesses[r]` says whether the task may touch shared resource `r`.
    pub accesses: Vec<bool>,
}

/// The static task set and resource count of one firmware build.
pub struct LockPlan {
    pub n_resources: usize,
    pub tasks: Vec<TaskDecl>,
}

/// The ceiling of resource `r` over the first `n` tasks: the highest priority
/// among those that declare access to `r` (zero when none does).
pub open spec fn ceiling_upto(tasks: Seq<TaskDecl>, r: int, n: int) -> nat
    decreases n,
{
    if n <= 0 {
        0
    } else {
        let rest = ceiling_upto(tasks, r, n - 1);
        if tasks[n - 1].accesses@[r] && tasks[n - 1].priority as nat > rest {
            tasks[n - 1].priority as nat
        } else {
            rest
        }
    }
}

/// The ceiling priority of resource `r` under `plan`.
pub open spec fn spec_ceiling(plan: LockPlan, r: int) -> nat {
    ceiling_upto(plan.tasks@, r, plan.tasks@.len() as int)
}

/// Law: a task never needs a ceiling below its own priority — every declared
/// accessor's priority is bounded by the resource's ceiling.
pub proof fn lemma_accessor_within_ceiling(tasks: Seq<TaskDecl>, r: int, t: int, n: int)
    requires
        0 <= t < n <= tasks.len(),
        tasks[t].accesses@[r],
    ensures
        tasks[t].priority as nat <= ceiling_upto(tasks, r, n),
    decreases n,
{
    if t < n - 1 {
        lemma_accessor_within_ceiling(tasks, r, t, n - 1);
    }
}

impl LockPlan {
    /// Structural well-formedness: every task's access set covers exactly the
    /// declared resources, and every priority is at least one.
    pub open spec fn wf(&self) -> bool {
        &&& (forall|t: int|
            0 <= t < self.tasks@.len() ==> (#[trigger] self.tasks@[t]).accesses@.len()
                == self.n_resources)
        &&& (forall|t: int| 0 <= t < self.tasks@.len() ==> (#[trigger] self.tasks@[t]).priority >= 1)
    }

    /// Boot-time validation of the static assignment; a firmware must halt
    /// rather than run with a plan this rejects.
    pub fn validate(&self) -> (ok: bool)
        ensures
            ok == self.wf(),
    {
        let n: usize = self.tasks.len();
        let mut t: usize = 0;
        let mut ok: bool = true;
        while t < n
            invariant
                t <= n,
                n == self.tasks@.len(),
                ok == (forall|j: int|
                    0 <= j < t ==> (#[trigger] self.tasks@[j]).accesses@.len() == self.n_resources
                        && self.tasks@[j].priority >= 1),
            decreases n - t,
        {
            let good: bool = self.tasks[t].accesses.len() == self.n_resources
                && self.tasks[t].priority >= 1;
            ok = ok && good;
            t = t + 1;
        }
        ok
    }

    /// Computes the ceiling priority of resource `r`.
    pub fn ceiling(&self, r: usize) -> (c: u8)
        requires
            self.wf(),
            r < self.n_resources,
        ensures
            c as nat == spec_ceiling(*self, r as int),
    {
        let n: usize = self.tasks.len();
        let mut c: u8 = 0;
        let mut t: usize = 0;
        while t < n
            invariant
                t <= n,
                n == self.tasks@.len(),
                self.wf(),
                r < self.n_resources,
                c as nat == ceiling_upto(self.tasks@, r as int, t as int),
            decreases n - t,
        {
            if self.tasks[t].accesses[r] && self.tasks[t].priority > c {
                c = self.tasks[t].priority;
            }
            t = t + 1;
        }
        c
    }

    /// Checks the narrow sharing assumption the ceiling discipline replaces:
    /// that every declared accessor of resource `r` has one and the same
    /// priority (on a single core, equal-priority interrupt tasks are already
    /// mutually exclusive). A plan whose priorities diverge must use the lock.
    pub fn equal_priority_accessors(&self, r: usize) -> (ok: bool)
        requires
            self.wf(),
            r < self.n_resources,
        ensures
            ok == (forall|t: int, u: int|
                0 <= t < self.tasks@.len() && 0 <= u < self.tasks@.len()
                    && (#[trigger] self.tasks@[t]).accesses@[r as int]
                    && (#[trigger] self.tasks@[u]).accesses@[r as int] ==> self.tasks@[t].priority
                    == self.tasks@[u].priority),
    {
        let n: usize = self.tasks.len();
        let mut seen: Option<u8> = None;
        let mut ok: bool = true;
        let mut t: usize = 0;
        while t < n
            invariant
                t <= n,
                n == self.tasks@.len(),
                self.wf(),
                r < self.n_resources,
                seen is None ==> forall|j: int|
                    0 <= j < t ==> !(#[trigger] self.tasks@[j]).accesses@[r as int],
                seen is Some ==> exists|j: int|
                    0 <= j < t && (#[trigger] self.tasks@[j]).accesses@[r as int]
                        && self.tasks@[j].priority == seen->0,
                ok == (forall|j: int, k: int|
                    0 <= j < t && 0 <= k < t && (#[trigger] self.tasks@[j]).accesses@[r as int]
                        && (#[trigger] self.tasks@[k]).accesses@[r as int]
                        ==> self.tasks@[j].priority == self.tasks@[k].priority),
                ok && seen is Some ==> forall|j: int|
                    0 <= j < t && (#[trigger] self.tasks@[j]).accesses@[r as int]
                        ==> self.tasks@[j].priority == seen->0,
            decreases n - t,
        {
            if self.tasks[t].accesses[r] {
                let p: u8 = self.tasks[t].priority;
                match seen {
                    None => {
                        seen = Some(p);
                    },
                    Some(q) => {
                        if q != p {
                            ok = false;
                        }
                    },
                }
            }
            t = t + 1;
        }
        ok
    }
}

/// One boundary of a critical section, as recorded in the ghost trace of the
/// dispatcher model.
pub enum CritEvent {
    Enter { task: usize, resource: usize },
    Exit { task: usize, resource: usize },
}

/// The resource a trace event concerns.
pub open spec fn resource_of(e: CritEvent) -> int {
    match e {
        CritEvent::Enter { resource, .. } => resource as int,
        CritEvent::Exit { resource, .. } => resource as int,
    }
}

/// The task a trace event concerns.
pub open spec fn task_of(e: CritEvent) -> usize {
    match e {
        CritEvent::Enter { task, .. } => task,
        CritEvent::Exit { task, .. } => task,
    }
}

/// Who is inside a critical section on resource `r` after the trace `log`:
/// the task of the last unmatched entry, or nobody.
pub open spec fn crit_owner(log: Seq<CritEvent>, r: int) -> Option<usize>
    decreases log.len(),
{
    if log.len() == 0 {
        None
    } else {
        let prev = crit_owner(log.drop_last(), r);
        match log.last() {
            CritEvent::Enter { task, resource } => if resource as int == r {
                Some(task)
            } else {
                prev
            },
            CritEvent::Exit { resource, .. } => if resource as int == r {
                None
            } else {
                prev
            },
        }
    }
}

/// The trace event at position `p` is lawful: a section is entered only while
/// nobody is inside one on that resource, and exited only by the task inside.
pub open spec fn event_ok(log: Seq<CritEvent>, p: int) -> bool {
    match log[p] {
        CritEvent::Enter { resource, .. } => crit_owner(log.take(p), resource as int) is None,
        CritEvent::Exit { task, resource } => crit_owner(log.take(p), resource as int) == Some(
            task,
        ),
    }
}

/// A lawful trace: every event in it is lawful at its position.
pub open spec fn log_wf(log: Seq<CritEvent>) -> bool {
    forall|p: int| 0 <= p < log.len() ==> #[trigger] event_ok(log, p)
}

proof fn lemma_crit_owner_push(log: Seq<CritEvent>, e: CritEvent, r: int)
    ensures
        crit_owner(log.push(e), r) == (if resource_of(e) == r {
            if e is Enter {
                Some(task_of(e))
            } else {
                None
            }
        } else {
            crit_owner(log, r)
        }),
{
    assert(log.push(e).drop_last() =~= log);
    assert(log.push(e).last() == e);
}

proof fn lemma_log_wf_push(log: Seq<CritEvent>, e: CritEvent)
    requires
        log_wf(log),
        e is Enter ==> crit_owner(log, resource_of(e)) is None,
        e is Exit ==> crit_owner(log, resource_of(e)) == Some(task_of(e)),
    ensures
        log_wf(log.push(e)),
{
    assert forall|p: int| 0 <= p < log.push(e).len() implies #[trigger] event_ok(
        log.push(e),
        p,
    ) by {
        if p < log.len() {
            assert(event_ok(log, p));
            assert(log.push(e).take(p) =~= log.take(p));
            assert(log.push(e)[p] == log[p]);
        } else {
            assert(log.push(e).take(p) =~= log);
        }
    }
}

proof fn lemma_owner_persists(log: Seq<CritEvent>, r: int, a: int, b: int)
    requires
        0 <= a <= b <= log.len(),
        forall|q: int| a <= q < b ==> resource_of(#[trigger] log[q]) != r,
    ensures
        crit_owner(log.take(b), r) == crit_owner(log.take(a), r),
    decreases b - a,
{
    if a < b {
        lemma_owner_persists(log, r, a, b - 1);
        assert(log.take(b).drop_last() =~= log.take(b - 1));
        assert(log.take(b).last() == log[b - 1]);
    }
}

proof fn lemma_exit_between(log: Seq<CritEvent>, r: int, t1: usize, a: int, p2: int)
    requires
        log_wf(log),
        0 <= a <= p2 < log.len(),
        crit_owner(log.take(a), r) == Some(t1),
        log[p2] is Enter,
        resource_of(log[p2]) == r,
    ensures
        exists|q: int|
            a <= q < p2 && (#[trigger] log[q]) is Exit && resource_of(log[q]) == r && task_of(
                log[q],
            ) == t1,
    decreases p2 - a,
{
    assert(event_ok(log, p2));
    if a == p2 {
        // the entry at p2 is lawful only over a free resource: contradiction
        assert(false);
    } else if resource_of(log[a]) == r {
        assert(event_ok(log, a));
        if log[a] is Enter {
            // a lawful entry at `a` needs the resource free: contradiction
            assert(false);
        }
        // a lawful exit at `a` is by the owner, t1: it is the witness
        assert(log[a] is Exit && resource_of(log[a]) == r && task_of(log[a]) == t1);
    } else {
        assert(log.take(a + 1).drop_last() =~= log.take(a));
        assert(log.take(a + 1).last() == log[a]);
        lemma_exit_between(log, r, t1, a + 1, p2);
        let q0 = choose|q0: int|
            a + 1 <= q0 < p2 && (#[trigger] log[q0]) is Exit && resource_of(log[q0]) == r
                && task_of(log[q0]) == t1;
        assert(a <= q0 < p2 && log[q0] is Exit && resource_of(log[q0]) == r && task_of(log[q0])
            == t1);
    }
}

/// The dispatcher model: the preemption stack (running task last), the holder
/// of each shared resource, and a ghost trace of every critical-section
/// boundary ever crossed.
pub struct Sched {
    pub plan: LockPlan,
    pub stack: Vec<usize>,
    pub holder: Vec<Option<usize>>,
    pub crit_log: Ghost<Seq<CritEvent>>,
}

impl Sched {
    /// The priority of task `t`.
    pub open spec fn prio_of(&self, t: int) -> nat {
        self.plan.tasks@[t].priority as nat
    }

    /// The task currently running: the innermost (last) entry of the
    /// preemption stack.
    pub open spec fn running(&self) -> int {
        self.stack@.last() as int
    }

    /// The dispatcher's invariant. Beyond shape, it carries the two facts the
    /// ceiling protocol lives on: priorities strictly increase up the
    /// preemption stack, and every task dispatched past a lock holder has a
    /// priority above the held resource's ceiling.
    pub open spec fn inv(&self) -> bool {
        &&& self.plan.wf()
        &&& self.holder@.len() == self.plan.n_resources
        &&& (forall|k: int| 0 <= k < self.stack@.len() ==> #[trigger] self.stack@[k] < self.plan.tasks@.len())
        &&& (forall|j: int, k: int|
            0 <= j < k < self.stack@.len() ==> self.prio_of(#[trigger] self.stack@[j] as int)
                < self.prio_of(#[trigger] self.stack@[k] as int))
        &&& (forall|r: int|
            0 <= r < self.holder@.len() && (#[trigger] self.holder@[r]) is Some ==> {
                &&& self.holder@[r]->0 < self.plan.tasks@.len()
                &&& self.plan.tasks@[self.holder@[r]->0 as int].accesses@[r]
                &&& exists|k: int| 0 <= k < self.stack@.len() && #[trigger] self.stack@[k] == self.holder@[r]->0
            })
        &&& (forall|r: int, k: int|
            0 <= r < self.holder@.len() && 0 <= k < self.stack@.len()
                && (#[trigger] self.holder@[r]) is Some && self.prio_of(#[trigger] self.stack@[k] as int)
                > self.prio_of(self.holder@[r]->0 as int) ==> self.prio_of(self.stack@[k] as int)
                > spec_ceiling(self.plan, r))
        &&& log_wf(self.crit_log@)
        &&& (forall|r: int|
            0 <= r < self.holder@.len() ==> crit_owner(self.crit_log@, r) == #[trigger] self.holder@[r])
    }

    /// Can task `t` be dispatched now? Only if its priority strictly exceeds
    /// both the running task's priority and the ceiling of every held
    /// resource — the priority-ceiling dispatch rule.
    pub open spec fn spec_can_dispatch(&self, t: int) -> bool {
        &&& (self.stack@.len() == 0 || self.prio_of(t) > self.prio_of(self.running()))
        &&& (forall|r: int|
            0 <= r < self.holder@.len() && (#[trigger] self.holder@[r]) is Some ==> self.prio_of(t)
                > spec_ceiling(self.plan, r))
    }

    /// A freshly booted dispatcher: nothing running, nothing held.
    pub fn new(plan: LockPlan) -> (s: Sched)
        requires
            plan.wf(),
        ensures
            s.inv(),
            s.plan == plan,
            s.stack@ =~= Seq::<usize>::empty(),
            s.crit_log@ =~= Seq::<CritEvent>::empty(),
            forall|r: int| 0 <= r < s.holder@.len() ==> (#[trigger] s.holder@[r]) is None,
    {
        let n: usize = plan.n_resources;
        let mut holder: Vec<Option<usize>> = Vec::new();
        let mut i: usize = 0;
        while i < n
            invariant
                i <= n,
                holder@.len() == i,
                forall|r: int| 0 <= r < i ==> (#[trigger] holder@[r]) is None,
            decreases n - i,
        {
            holder.push(None);
            i = i + 1;
        }
        Sched { plan, stack: Vec::new(), holder, crit_log: Ghost(Seq::empty()) }
    }

    /// Attempts to dispatch (start) task `t`, preempting the running task.
    /// Succeeds exactly when the priority-ceiling dispatch rule allows it; a
    /// refused trigger stays pending in hardware and changes nothing here.
    pub fn try_dispatch(&mut self, t: usize) -> (ok: bool)
        requires
            old(self).inv(),
            t < old(self).plan.tasks@.len(),
        ensures
            final(self).inv(),
            final(self).plan == old(self).plan,
            final(self).holder@ =~= old(self).holder@,
            final(self).crit_log@ =~= old(self).crit_log@,
            ok == old(self).spec_can_dispatch(t as int),
            ok ==> final(self).stack@ =~= old(self).stack@.push(t),
            !ok ==> final(self).stack@ =~= old(self).stack@,
    {
        let mut ok: bool = true;
        if self.stack.len() > 0 {
            let top: usize = self.stack[self.stack.len() - 1];
            if self.tasks_priority(t) <= self.tasks_priority(top) {
                ok = false;
            }
        }
        let nr: usize = self.holder.len();
        let mut r: usize = 0;
        while r < nr
            invariant
                r <= nr,
                nr == self.holder@.len(),
                self == old(self),
                self.inv(),
                t < self.plan.tasks@.len(),
                ok ==> (self.stack@.len() == 0 || self.prio_of(t as int) > self.prio_of(
                    self.running(),
                )),
                !ok ==> !self.spec_can_dispatch(t as int),
                ok ==> forall|q: int|
                    0 <= q < r && (#[trigger] self.holder@[q]) is Some ==> self.prio_of(t as int)
                        > spec_ceiling(self.plan, q),
            decreases nr - r,
        {
            let held: bool = match self.holder[r] {
                Some(_) => true,
                None => false,
            };
            if held {
                let c: u8 = self.plan.ceiling(r);
                if self.tasks_priority(t) <= c {
                    ok = false;
                }
            }
            r = r + 1;
        }
        if ok {
            self.stack.push(t);
            proof {
                let s1 = self.stack@;
                let top = s1.len() - 1;
                assert forall|j: int, k: int|
                    0 <= j < k < s1.len() implies self.prio_of(#[trigger] s1[j] as int)
                    < self.prio_of(#[trigger] s1[k] as int) by {
                    if k == top && j < top - 1 {
                        assert(self.prio_of(s1[j] as int) < self.prio_of(s1[top - 1] as int));
                    }
                }
                assert forall|q: int|
                    0 <= q < self.holder@.len() && (#[trigger] self.holder@[q]) is Some implies exists|
                    k: int,
                | 0 <= k < s1.len() && #[trigger] s1[k] == self.holder@[q]->0 by {
                    let k0 = choose|k0: int|
                        0 <= k0 < old(self).stack@.len() && #[trigger] old(self).stack@[k0]
                            == self.holder@[q]->0;
                    assert(s1[k0] == self.holder@[q]->0);
                }
            }
        }
        ok
    }

    /// The running task acquires shared resource `r`, which it must have
    /// declared and must not already hold. Under the ceiling protocol the
    /// request never blocks: the resource is provably free (`old(self)`'s
    /// holder is `None`), and afterwards the running task holds it.
    pub fn acquire(&mut self, r: usize)
        requires
            old(self).inv(),
            old(self).stack@.len() > 0,
            r < old(self).holder@.len(),
            old(self).plan.tasks@[old(self).running()].accesses@[r as int],
            old(self).holder@[r as int] != Some(old(self).stack@.last()),
        ensures
            old(self).holder@[r as int] is None,
            final(self).inv(),
            final(self).plan == old(self).plan,
            final(self).stack@ =~= old(self).stack@,
            final(self).holder@ =~= old(self).holder@.update(
                r as int,
                Some(old(self).stack@.last()),
            ),
            final(self).crit_log@ =~= old(self).crit_log@.push(
                CritEvent::Enter { task: old(self).stack@.last(), resource: r },
            ),
    {
        proof {
            lemma_lock_never_blocks(*self, r as int);
        }
        let top: usize = self.stack[self.stack.len() - 1];
        self.holder[r] = Some(top);
        proof {
            let oldlog = self.crit_log@;
            let e = CritEvent::Enter { task: top, resource: r };
            lemma_log_wf_push(oldlog, e);
            self.crit_log@ = oldlog.push(e);
            assert forall|q: int|
                0 <= q < self.holder@.len() implies crit_owner(self.crit_log@, q)
                == #[trigger] self.holder@[q] by {
                lemma_crit_owner_push(oldlog, e, q);
            }
            assert forall|q: int, k: int|
                0 <= q < self.holder@.len() && 0 <= k < self.stack@.len()
                    && (#[trigger] self.holder@[q]) is Some && self.prio_of(
                    #[trigger] self.stack@[k] as int,
                ) > self.prio_of(self.holder@[q]->0 as int) implies self.prio_of(
                self.stack@[k] as int,
            ) > spec_ceiling(self.plan, q) by {
                if q == r as int {
                    // the new holder is the running task, the stack's maximum:
                    // nothing on the stack outranks it, so the claim is vacuous
                    assert(self.stack@[self.stack@.len() - 1] == top);
                    if self.stack@[k] != top {
                        assert(self.prio_of(self.stack@[k] as int) < self.prio_of(top as int));
                    }
                }
            }
        }
    }

    /// The running task releases resource `r`, which it holds. Release is
    /// scoped in the firmware (guaranteed on every exit path); here it is the
    /// only transition that frees a resource.
    pub fn release(&mut self, r: usize)
        requires
            old(self).inv(),
            old(self).stack@.len() > 0,
            r < old(self).holder@.len(),
            old(self).holder@[r as int] == Some(old(self).stack@.last()),
        ensures
            final(self).inv(),
            final(self).plan == old(self).plan,
            final(self).stack@ =~= old(self).stack@,
            final(self).holder@ =~= old(self).holder@.update(r as int, None),
            final(self).crit_log@ =~= old(self).crit_log@.push(
                CritEvent::Exit { task: old(self).stack@.last(), resource: r },
            ),
    {
        let top: usize = self.stack[self.stack.len() - 1];
        self.holder[r] = None;
        proof {
            let oldlog = self.crit_log@;
            let e = CritEvent::Exit { task: top, resource: r };
            lemma_log_wf_push(oldlog, e);
            self.crit_log@ = oldlog.push(e);
            assert forall|q: int|
                0 <= q < self.holder@.len() implies crit_owner(self.crit_log@, q)
                == #[trigger] self.holder@[q] by {
                lemma_crit_owner_push(oldlog, e, q);
            }
            assert forall|q: int|
                0 <= q < self.holder@.len() && (#[trigger] self.holder@[q]) is Some implies {
                &&& self.holder@[q]->0 < self.plan.tasks@.len()
                &&& self.plan.tasks@[self.holder@[q]->0 as int].accesses@[q]
                &&& exists|k: int|
                    0 <= k < self.stack@.len() && #[trigger] self.stack@[k] == self.holder@[q]->0
            } by {
                let k0 = choose|k0: int|
                    0 <= k0 < old(self).stack@.len() && #[trigger] old(self).stack@[k0] == self.holder@[q]->0;
                assert(self.stack@[k0] == self.holder@[q]->0);
            }
        }
    }

    /// The running task runs to completion and leaves the stack. A task must
    /// have released everything it held — critical sections never outlive the
    /// task body.
    pub fn finish(&mut self)
        requires
            old(self).inv(),
            old(self).stack@.len() > 0,
            forall|r: int|
                0 <= r < old(self).holder@.len() ==> #[trigger] old(self).holder@[r] != Some(
                    old(self).stack@.last(),
                ),
        ensures
            final(self).inv(),
            final(self).plan == old(self).plan,
            final(self).holder@ =~= old(self).holder@,
            final(self).crit_log@ =~= old(self).crit_log@,
            final(self).stack@ =~= old(self).stack@.drop_last(),
    {
        let _popped: Option<usize> = self.stack.pop();
        proof {
            assert forall|q: int|
                0 <= q < self.holder@.len() && (#[trigger] self.holder@[q]) is Some implies exists|
                k: int,
            | 0 <= k < self.stack@.len() && #[trigger] self.stack@[k] == self.holder@[q]->0 by {
                let k0 = choose|k0: int|
                    0 <= k0 < old(self).stack@.len() && #[trigger] old(self).stack@[k0]
                        == self.holder@[q]->0;
                assert(k0 < old(self).stack@.len() - 1);
                assert(self.stack@[k0] == self.holder@[q]->0);
            }
        }
    }

    /// Priority lookup used by the dispatch check.
    fn tasks_priority(&self, t: usize) -> (p: u8)
        requires
            t < self.plan.tasks@.len(),
        ensures
            p as nat == self.prio_of(t as int),
    {
        self.plan.tasks[t].priority
    }
}

/// Law: a lock request by the running task never blocks. If the running task
/// declares resource `r` and does not itself hold it, then nobody holds it —
/// any other holder would have a ceiling at or above the running task's
/// priority, and the dispatch rule could never have started the running task
/// over it.
pub proof fn lemma_lock_never_blocks(s: Sched, r: int)
    requires
        s.inv(),
        s.stack@.len() > 0,
        0 <= r < s.holder@.len(),
        s.plan.tasks@[s.running()].accesses@[r],
        s.holder@[r] != Some(s.stack@.last()),
    ensures
        s.holder@[r] is None,
{
    if s.holder@[r] is Some {
        let t = s.holder@[r]->0;
        let k = choose|k: int| 0 <= k < s.stack@.len() && #[trigger] s.stack@[k] == t;
        let top = s.stack@.len() - 1;
        assert(k < top);
        assert(s.prio_of(s.stack@[top] as int) > s.prio_of(t as int));
        assert(s.prio_of(s.stack@[top] as int) > spec_ceiling(s.plan, r));
        lemma_accessor_within_ceiling(
            s.plan.tasks@,
            r,
            s.running(),
            s.plan.tasks@.len() as int,
        );
    }
}

/// Law: two tasks sharing a resource never observe each other's
/// partially-updated state. While any task holds resource `r`, no other task
/// that declares access to `r` can be dispatched, so critical sections on one
/// resource never interleave.
/// Law: in the whole recorded trace of a valid scheduler, critical sections
/// on one resource never interleave. Between any two entries into critical
/// sections on the same resource stands an exit by the first entry's task:
/// the first section closes before the second opens, so the second task never
/// sees the first one's partially-updated state.
pub proof fn lemma_trace_has_no_interleaving(s: Sched, p1: int, p2: int)
    requires
        s.inv(),
        0 <= p1 < p2 < s.crit_log@.len(),
        s.crit_log@[p1] is Enter,
        s.crit_log@[p2] is Enter,
        resource_of(s.crit_log@[p1]) == resource_of(s.crit_log@[p2]),
    ensures
        exists|q: int|
            p1 < q < p2 && (#[trigger] s.crit_log@[q]) is Exit && resource_of(s.crit_log@[q])
                == resource_of(s.crit_log@[p1]) && task_of(s.crit_log@[q]) == task_of(
                s.crit_log@[p1],
            ),
{
    let log = s.crit_log@;
    let r = resource_of(log[p1]);
    let t1 = task_of(log[p1]);
    assert(crit_owner(log.take(p1 + 1), r) == Some(t1)) by {
        assert(log.take(p1 + 1).drop_last() =~= log.take(p1));
        assert(log.take(p1 + 1).last() == log[p1]);
    }
    lemma_exit_between(log, r, t1, p1 + 1, p2);
    let q0 = choose|q0: int|
        p1 + 1 <= q0 < p2 && (#[trigger] log[q0]) is Exit && resource_of(log[q0]) == r && task_of(
            log[q0],
        ) == t1;
    assert(p1 < q0 < p2 && log[q0] is Exit && resource_of(log[q0]) == r && task_of(log[q0]) == t1);
}

pub proof fn lemma_no_interleaved_critical_sections(s: Sched, r: int, u: int)
    requires
        s.inv(),
        0 <= r < s.holder@.len(),
        s.holder@[r] is Some,
        0 <= u < s.plan.tasks@.len(),
        u != s.holder@[r]->0,
        s.plan.tasks@[u].accesses@[r],
    ensures
        !s.spec_can_dispatch(u),
{
    lemma_accessor_within_ceiling(s.plan.tasks@, r, u, s.plan.tasks@.len() as int);
}

} // verus!
