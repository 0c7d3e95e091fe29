//! The scheduler: which tasks are started when, which are skipped, and when
//! a run is over. It decides; starting programs and waiting for them is left
//! to the caller, who reports back what happened.

use super::command::CommandRuntime;
use super::fingerprint::Fingerprints;
use super::command::CommandGraph;
use super::dep_graph::lemma_immediate_depends;
use super::task::{lemma_waits_for_package_dependencies, waits_for_package, TaskGraph, TaskPlan};
use super::Workspace;
use crate::text::str_eq;
use vstd::prelude::*;

verus! {

/// How far a task has come.
#[derive(Copy, Clone, PartialEq, Eq, Debug)]
pub enum TaskStatus {
    Pending,
    Running,
    Finished,
}

/// What the scheduler asks of the caller.
pub enum Poll {
    /// Every task is finished: the run is over and has succeeded.
    Done,
    /// Start these tasks, then wait for something to happen.
    Spawn(Vec<usize>),
    /// Nothing to start; wait for something to happen.
    Wait,
    /// Nothing runs and nothing can be started, though tasks are pending.
    Stalled,
}

/// What happened while the caller waited.
#[derive(Copy, Clone, PartialEq, Eq, Debug)]
pub enum Event {
    /// The task at this place has ended, well or badly.
    Completed { task: usize, success: bool },
    /// The user asked for the run to end.
    ExitRequested,
}

/// What the caller is to do after an event.
#[derive(Copy, Clone, PartialEq, Eq, Debug)]
pub enum Outcome {
    /// Go on with the run.
    Continue,
    /// End the run: stop the tasks that still run. `success` says whether
    /// the run counts as one that succeeded.
    Stop { success: bool },
}

/// The state of a run.
pub struct Runner {
    statuses: Vec<TaskStatus>,
    skipped: Vec<bool>,
    /// The number of steps taken so far, which serves as the time.
    clock: Ghost<int>,
    /// When each task was started, if it was.
    started: Ghost<Seq<Option<int>>>,
    /// When each task was finished, if it was.
    finished: Ghost<Seq<Option<int>>>,
}

/// The number of tasks that are pending.
pub open spec fn count_pending(statuses: Seq<TaskStatus>) -> nat
    decreases statuses.len(),
{
    if statuses.len() == 0 {
        0
    } else {
        count_pending(statuses.drop_last()) + if statuses.last() is Pending {
            1nat
        } else {
            0nat
        }
    }
}

proof fn lemma_count_pending_update(statuses: Seq<TaskStatus>, t: int, to: TaskStatus)
    requires
        0 <= t < statuses.len(),
        statuses[t] is Pending,
        !(to is Pending),
    ensures
        count_pending(statuses.update(t, to)) + 1 == count_pending(statuses),
    decreases statuses.len(),
{
    let u = statuses.update(t, to);
    if t == statuses.len() - 1 {
        assert(u.drop_last() =~= statuses.drop_last());
    } else {
        assert(u.drop_last() =~= statuses.drop_last().update(t, to));
        lemma_count_pending_update(statuses.drop_last(), t, to);
    }
}

impl Runner {
    /// How far each task has come.
    pub closed spec fn statuses(&self) -> Seq<TaskStatus> {
        self.statuses@
    }

    /// Whether each task was passed over rather than run.
    pub closed spec fn skipped(&self) -> Seq<bool> {
        self.skipped@
    }

    /// When each task was started, counted in steps of the run; none for a
    /// task that was not started.
    pub closed spec fn started_at(&self) -> Seq<Option<int>> {
        self.started@
    }

    /// When each task was finished, counted in steps of the run.
    pub closed spec fn finished_at(&self) -> Seq<Option<int>> {
        self.finished@
    }

    /// The number of steps taken so far.
    pub closed spec fn now(&self) -> int {
        self.clock@
    }

    /// The state fits the plan: a task that has left the pending state was
    /// started or skipped only after every task that it waits for was
    /// finished; a task was skipped only if it could be and every task that
    /// it waits for was skipped too; and times are as the states say.
    pub open spec fn wf(&self, plan: TaskPlan) -> bool {
        let n = plan.tasks@.len();
        &&& self.statuses().len() == n
        &&& self.skipped().len() == n
        &&& self.started_at().len() == n
        &&& self.finished_at().len() == n
        &&& plan.table.deps@.len() == n
        &&& forall|t: int, k: int| 0 <= t < n && 0 <= k < plan.table.deps@[t]@.len() ==> #[trigger] plan.table.deps@[t]@[k] < n
        &&& forall|t: int| 0 <= t < n ==> self.task_consistent(#[trigger] plan.table.deps@[t]@, plan.tasks@[t].can_skip, t)
    }

    /// What holds of the task at place `t`, which waits for `deps`.
    pub open spec fn task_consistent(&self, deps: Seq<u64>, can_skip: bool, t: int) -> bool {
        &&& match self.statuses()[t] {
            TaskStatus::Pending => self.started_at()[t] is None && self.finished_at()[t] is None && !self.skipped()[t],
            TaskStatus::Running => self.started_at()[t] is Some && self.finished_at()[t] is None && !self.skipped()[t],
            TaskStatus::Finished => self.finished_at()[t] is Some && (self.skipped()[t] <==> self.started_at()[t] is None),
        }
        &&& self.started_at()[t] is Some ==> self.started_at()[t]->0 < self.now()
        &&& self.finished_at()[t] is Some ==> self.finished_at()[t]->0 < self.now()
        &&& self.started_at()[t] is Some && self.finished_at()[t] is Some ==> self.started_at()[t]->0 < self.finished_at()[t]->0
        &&& self.skipped()[t] ==> can_skip
        &&& !(self.statuses()[t] is Pending) ==> forall|k: int|
            0 <= k < deps.len() ==> {
                &&& self.statuses()[#[trigger] deps[k] as int] is Finished
                &&& self.finished_at()[deps[k] as int] is Some
                &&& self.started_at()[t] is Some ==> self.finished_at()[deps[k] as int]->0 < self.started_at()[t]->0
                &&& self.finished_at()[t] is Some ==> self.finished_at()[deps[k] as int]->0 < self.finished_at()[t]->0
                &&& self.skipped()[t] ==> self.skipped()[deps[k] as int]
            }
    }

    /// Every task that the task at place `t` waits for is finished.
    pub open spec fn ready(&self, plan: TaskPlan, t: int) -> bool {
        forall|k: int|
            0 <= k < plan.table.deps@[t]@.len() ==> self.statuses()[#[trigger] plan.table.deps@[t]@[k] as int] is Finished
    }

    /// Every task that the task at place `t` waits for was skipped.
    pub open spec fn all_skipped(&self, plan: TaskPlan, t: int) -> bool {
        forall|k: int| 0 <= k < plan.table.deps@[t]@.len() ==> self.skipped()[#[trigger] plan.table.deps@[t]@[k] as int]
    }

    /// The state at the start of a run: every task is pending.
    pub fn new(plan: &TaskPlan) -> (r: Runner)
        requires
            plan.tasks@.len() == plan.table.deps@.len(),
            forall|t: int, k: int|
                0 <= t < plan.tasks@.len() && 0 <= k < plan.table.deps@[t]@.len() ==>
                    #[trigger] plan.table.deps@[t]@[k] < plan.tasks@.len(),
        ensures
            r.wf(*plan),
            forall|t: int| 0 <= t < plan.tasks@.len() ==> #[trigger] r.statuses()[t] is Pending,
    {
        let n = plan.tasks.len();
        let mut statuses: Vec<TaskStatus> = Vec::new();
        let mut skipped: Vec<bool> = Vec::new();
        let mut i: usize = 0;
        while i < n
            invariant
                i <= n,
                statuses@.len() == i,
                skipped@.len() == i,
                forall|t: int| 0 <= t < i ==> #[trigger] statuses@[t] is Pending && !skipped@[t],
            decreases n - i,
        {
            statuses.push(TaskStatus::Pending);
            skipped.push(false);
            i += 1;
        }
        Runner {
            statuses,
            skipped,
            clock: Ghost(0),
            started: Ghost(Seq::new(n as nat, |i: int| None)),
            finished: Ghost(Seq::new(n as nat, |i: int| None)),
        }
    }

    /// The state of the task at place `task`.
    pub fn status(&self, task: usize) -> (r: TaskStatus)
        requires
            task < self.statuses().len(),
        ensures
            r == self.statuses()[task as int],
    {
        self.statuses[task]
    }

    /// Whether the task at place `task` was passed over.
    pub fn was_skipped(&self, task: usize) -> (r: bool)
        requires
            task < self.skipped().len(),
        ensures
            r == self.skipped()[task as int],
    {
        self.skipped[task]
    }

    /// Whether every task is finished.
    pub fn all_finished(&self) -> (r: bool)
        ensures
            r == forall|t: int| 0 <= t < self.statuses().len() ==> self.statuses()[t] is Finished,
    {
        let mut t: usize = 0;
        while t < self.statuses.len()
            invariant
                t <= self.statuses@.len(),
                forall|k: int| 0 <= k < t ==> self.statuses@[k] is Finished,
            decreases self.statuses.len() - t,
        {
            if !matches!(self.statuses[t], TaskStatus::Finished) {
                return false;
            }
            t += 1;
        }
        true
    }

    /// Whether any task runs.
    pub fn any_running(&self) -> (r: bool)
        ensures
            r == exists|t: int| 0 <= t < self.statuses().len() && self.statuses()[t] is Running,
    {
        let mut t: usize = 0;
        while t < self.statuses.len()
            invariant
                t <= self.statuses@.len(),
                forall|k: int| 0 <= k < t ==> !(self.statuses@[k] is Running),
            decreases self.statuses.len() - t,
        {
            if matches!(self.statuses[t], TaskStatus::Running) {
                return true;
            }
            t += 1;
        }
        false
    }

    fn is_ready(&self, plan: &TaskPlan, t: usize) -> (r: (bool, bool))
        requires
            self.wf(*plan),
            t < plan.tasks@.len(),
        ensures
            r.0 == self.ready(*plan, t as int),
            r.0 ==> r.1 == self.all_skipped(*plan, t as int),
    {
        let row = &plan.table.deps[t];
        let mut all_skipped = true;
        let mut k: usize = 0;
        while k < row.len()
            invariant
                k <= row@.len(),
                row@ == plan.table.deps@[t as int]@,
                self.wf(*plan),
                t < plan.tasks@.len(),
                forall|m: int| 0 <= m < k ==> self.statuses()[#[trigger] row@[m] as int] is Finished,
                all_skipped == forall|m: int| 0 <= m < k ==> self.skipped()[#[trigger] row@[m] as int],
            decreases row.len() - k,
        {
            proof {
                assert(plan.table.deps@[t as int]@[k as int] < plan.tasks@.len());
                assert(plan.tasks@.len() == plan.tasks.len());
            }
            let d = row[k] as usize;
            assert(d as int == row@[k as int] as int);
            if !matches!(self.statuses[d], TaskStatus::Finished) {
                return (false, false);
            }
            if !self.skipped[d] {
                all_skipped = false;
            }
            k += 1;
        }
        (true, all_skipped)
    }
}

impl Runner {
    /// From `before` to this state, no task went back: a task that ran
    /// still runs or is finished, a finished task is as it was, and times
    /// that were set stay.
    pub open spec fn follows(&self, before: Runner) -> bool {
        let n = before.statuses().len();
        &&& self.statuses().len() == n
        &&& self.skipped().len() == before.skipped().len()
        &&& self.started_at().len() == before.started_at().len()
        &&& self.finished_at().len() == before.finished_at().len()
        &&& before.now() <= self.now()
        &&& forall|t: int|
            0 <= t < n ==> {
                &&& (#[trigger] before.statuses()[t]) is Running ==> !(self.statuses()[t] is Pending)
                &&& before.statuses()[t] is Finished ==> self.statuses()[t] is Finished
                &&& before.started_at()[t] is Some ==> self.started_at()[t] == before.started_at()[t]
                &&& before.finished_at()[t] is Some ==> self.finished_at()[t] == before.finished_at()[t]
                &&& before.statuses()[t] is Finished ==> self.skipped()[t] == before.skipped()[t]
            }
    }

    /// From `before` to this state, the pending tasks that were ready were
    /// decided and nothing else changed: a task that was decided is skipped
    /// if it can be and every task that it waits for was skipped, and runs
    /// otherwise.
    pub open spec fn decided_from(&self, before: Runner, plan: TaskPlan) -> bool {
        forall|t: int|
            0 <= t < before.statuses().len() ==> if (#[trigger] before.statuses()[t]) is Pending {
                match self.statuses()[t] {
                    TaskStatus::Pending => true,
                    TaskStatus::Running => self.ready(plan, t) && !(plan.tasks@[t].can_skip && self.all_skipped(plan, t)),
                    TaskStatus::Finished => self.ready(plan, t) && plan.tasks@[t].can_skip && self.all_skipped(plan, t)
                        && self.skipped()[t],
                }
            } else {
                self.statuses()[t] == before.statuses()[t]
            }
    }

    /// Decides the pending task at place `t`, which is ready.
    fn decide(&mut self, plan: &TaskPlan, t: usize, skip: bool)
        requires
            old(self).wf(*plan),
            t < plan.tasks@.len(),
            old(self).statuses()[t as int] is Pending,
            old(self).ready(*plan, t as int),
            skip == (plan.tasks@[t as int].can_skip && old(self).all_skipped(*plan, t as int)),
        ensures
            final(self).wf(*plan),
            final(self).follows(*old(self)),
            final(self).now() == old(self).now() + 1,
            final(self).statuses() == old(self).statuses().update(
                t as int,
                if skip {
                    TaskStatus::Finished
                } else {
                    TaskStatus::Running
                },
            ),
            final(self).skipped() == old(self).skipped().update(t as int, skip),
            final(self).started_at() == (if skip {
                old(self).started_at()
            } else {
                old(self).started_at().update(t as int, Some(old(self).now()))
            }),
            final(self).finished_at() == (if skip {
                old(self).finished_at().update(t as int, Some(old(self).now()))
            } else {
                old(self).finished_at()
            }),
    {
        let ghost before = *self;
        if skip {
            self.statuses.set(t, TaskStatus::Finished);
            self.skipped.set(t, true);
            self.finished = Ghost(self.finished@.update(t as int, Some(self.clock@)));
        } else {
            self.statuses.set(t, TaskStatus::Running);
            self.started = Ghost(self.started@.update(t as int, Some(self.clock@)));
        }
        self.clock = Ghost(self.clock@ + 1);
        proof {
            assert(self.skipped@ =~= before.skipped@.update(t as int, skip));
            let n = plan.tasks@.len();
            assert forall|u: int|
                0 <= u < n implies
                self.task_consistent(#[trigger] plan.table.deps@[u]@, plan.tasks@[u].can_skip, u) by {
                let deps = plan.table.deps@[u]@;
                assert(before.task_consistent(deps, plan.tasks@[u].can_skip, u));
                if u == t {
                    assert forall|k: int| 0 <= k < deps.len() implies {
                        &&& self.statuses()[#[trigger] deps[k] as int] is Finished
                        &&& self.finished_at()[deps[k] as int] is Some
                        &&& self.started_at()[u] is Some ==> self.finished_at()[deps[k] as int]->0 < self.started_at()[u]->0
                        &&& self.finished_at()[u] is Some ==> self.finished_at()[deps[k] as int]->0 < self.finished_at()[u]->0
                        &&& self.skipped()[u] ==> self.skipped()[deps[k] as int]
                    } by {
                        let d = deps[k] as int;
                        assert(plan.table.deps@[t as int]@[k] < n);
                        assert(before.statuses()[d] is Finished);
                        assert(before.task_consistent(plan.table.deps@[d]@, plan.tasks@[d].can_skip, d));
                    }
                } else {
                    if !(self.statuses()[u] is Pending) {
                        assert forall|k: int| 0 <= k < deps.len() implies {
                            &&& self.statuses()[#[trigger] deps[k] as int] is Finished
                            &&& self.finished_at()[deps[k] as int] is Some
                            &&& self.started_at()[u] is Some ==> self.finished_at()[deps[k] as int]->0 < self.started_at()[u]->0
                            &&& self.finished_at()[u] is Some ==> self.finished_at()[deps[k] as int]->0 < self.finished_at()[u]->0
                            &&& self.skipped()[u] ==> self.skipped()[deps[k] as int]
                        } by {
                            assert(before.statuses()[deps[k] as int] is Finished);
                        }
                    }
                }
            }
        }
    }

    /// Goes once through the tasks and decides each pending task that is
    /// ready. Says whether any was decided; the tasks to start are added to
    /// `spawn`.
    fn pass(&mut self, plan: &TaskPlan, spawn: &mut Vec<usize>) -> (progress: bool)
        requires
            old(self).wf(*plan),
        ensures
            final(self).wf(*plan),
            final(self).follows(*old(self)),
            final(self).decided_from(*old(self), *plan),
            progress ==> count_pending(final(self).statuses()) < count_pending(old(self).statuses()),
            !progress ==> final(self).statuses() == old(self).statuses() && forall|t: int|
                0 <= t < plan.tasks@.len() && final(self).statuses()[t] is Pending ==> !#[trigger] final(self).ready(*plan, t),
            final(spawn)@.len() >= old(spawn)@.len(),
            final(spawn)@.take(old(spawn)@.len() as int) == old(spawn)@,
            forall|i: int| old(spawn)@.len() <= i < final(spawn)@.len() ==> {
                &&& (#[trigger] final(spawn)@[i]) < plan.tasks@.len()
                &&& old(self).statuses()[final(spawn)@[i] as int] is Pending
                &&& final(self).statuses()[final(spawn)@[i] as int] is Running
            },
            forall|t: int|
                0 <= t < plan.tasks@.len() && old(self).statuses()[t] is Pending && final(self).statuses()[t] is Running
                    ==> exists|i: int| old(spawn)@.len() <= i < final(spawn)@.len() && #[trigger] final(spawn)@[i] == t,
            forall|i: int, j: int|
                old(spawn)@.len() <= i < j < final(spawn)@.len() ==> #[trigger] final(spawn)@[i] < #[trigger] final(spawn)@[j],
    {
        let ghost start = *self;
        let ghost spawn0 = spawn@;
        let n = plan.tasks.len();
        let mut progress = false;
        let mut t: usize = 0;
        while t < n
            invariant
                t <= n,
                n == plan.tasks@.len(),
                start.wf(*plan),
                self.wf(*plan),
                self.follows(start),
                self.decided_from(start, *plan),
                forall|u: int| t <= u < n ==> self.statuses()[u] == start.statuses()[u],
                progress ==> count_pending(self.statuses()) < count_pending(start.statuses()),
                !progress ==> self.statuses() == start.statuses() && forall|u: int| 0 <= u < t && self.statuses()[u] is Pending ==> !#[trigger] self.ready(*plan, u),
                spawn@.len() >= spawn0.len(),
                spawn@.take(spawn0.len() as int) == spawn0,
                forall|i: int| spawn0.len() <= i < spawn@.len() ==> {
                    &&& (#[trigger] spawn@[i]) < t
                    &&& start.statuses()[spawn@[i] as int] is Pending
                    &&& self.statuses()[spawn@[i] as int] is Running
                },
                forall|u: int|
                    0 <= u < t && start.statuses()[u] is Pending && self.statuses()[u] is Running ==> exists|i: int|
                        spawn0.len() <= i < spawn@.len() && #[trigger] spawn@[i] == u,
                forall|i: int, j: int| spawn0.len() <= i < j < spawn@.len() ==> #[trigger] spawn@[i] < #[trigger] spawn@[j],
            decreases n - t,
        {
            if matches!(self.statuses[t], TaskStatus::Pending) {
                let (ready, all_skipped) = self.is_ready(plan, t);
                if ready {
                    let skip = plan.tasks[t].can_skip && all_skipped;
                    let ghost prev = *self;
                    let ghost spawn1 = spawn@;
                    self.decide(plan, t, skip);
                    if !skip {
                        spawn.push(t);
                    }
                    progress = true;
                    proof {
                        lemma_count_pending_update(
                            prev.statuses(),
                            t as int,
                            if skip {
                                TaskStatus::Finished
                            } else {
                                TaskStatus::Running
                            },
                        );
                        assert(spawn@.take(spawn0.len() as int) =~= spawn1.take(spawn0.len() as int));
                        assert forall|u: int| 0 <= u < n implies (if (#[trigger] start.statuses()[u]) is Pending {
                            match self.statuses()[u] {
                                TaskStatus::Pending => true,
                                TaskStatus::Running => self.ready(*plan, u) && !(plan.tasks@[u].can_skip && self.all_skipped(*plan, u)),
                                TaskStatus::Finished => self.ready(*plan, u) && plan.tasks@[u].can_skip && self.all_skipped(*plan, u)
                                    && self.skipped()[u],
                            }
                        } else {
                            self.statuses()[u] == start.statuses()[u]
                        }) by {
                            self.lemma_decisions_stay(prev, *plan, u, t as int);
                        }
                        assert forall|i: int| spawn0.len() <= i < spawn@.len() implies {
                            &&& (#[trigger] spawn@[i]) < t + 1
                            &&& start.statuses()[spawn@[i] as int] is Pending
                            &&& self.statuses()[spawn@[i] as int] is Running
                        } by {
                            if i < spawn1.len() {
                                assert(spawn@[i] == spawn1[i]);
                            }
                        }
                        assert forall|i: int, j: int|
                            spawn0.len() <= i < j < spawn@.len() implies
                            #[trigger] spawn@[i] < #[trigger] spawn@[j] by {
                            assert(spawn@[i] == spawn1[i]);
                            if j < spawn1.len() {
                                assert(spawn@[j] == spawn1[j]);
                            }
                        }
                        assert forall|u: int|
                            0 <= u < t + 1 && start.statuses()[u] is Pending && self.statuses()[u] is Running implies exists|i: int|
                            spawn0.len() <= i < spawn@.len() && #[trigger] spawn@[i] == u by {
                            if u == t {
                                assert(spawn@[spawn@.len() - 1] == t);
                            } else {
                                let i = choose|i: int| spawn0.len() <= i < spawn1.len() && #[trigger] spawn1[i] == u;
                                assert(spawn@[i] == u);
                            }
                        }
                    }
                }
            }
            t += 1;
        }
        progress
    }

    /// Deciding the task at place `t` leaves what was said of the readiness
    /// and the skipping of decided tasks as it was.
    proof fn lemma_decisions_stay(&self, prev: Runner, plan: TaskPlan, u: int, t: int)
        requires
            prev.wf(plan),
            self.wf(plan),
            0 <= u < plan.tasks@.len(),
            0 <= t < plan.tasks@.len(),
            prev.statuses()[t] is Pending,
            prev.ready(plan, t),
            self.statuses().len() == prev.statuses().len(),
            self.skipped().len() == prev.skipped().len(),
            forall|v: int|
                0 <= v < plan.tasks@.len() && v != t ==>
                    self.statuses()[v] == prev.statuses()[v] && self.skipped()[v] == prev.skipped()[v],
            !(self.statuses()[t] is Pending),
            self.skipped()[t] == (plan.tasks@[t].can_skip && prev.all_skipped(plan, t)),
            self.statuses()[t] is Finished <==> self.skipped()[t],
        ensures
            !(prev.statuses()[u] is Pending) ==> self.statuses()[u] == prev.statuses()[u] && (prev.ready(plan, u) ==> self.ready(plan, u))
                && (prev.all_skipped(plan, u) == self.all_skipped(plan, u)),
            u == t ==> self.ready(plan, u) && self.all_skipped(plan, u) == prev.all_skipped(plan, u),
    {
        let deps = plan.table.deps@[u]@;
        assert(prev.task_consistent(deps, plan.tasks@[u].can_skip, u));
        assert(self.task_consistent(deps, plan.tasks@[u].can_skip, u));
        if u == t || !(prev.statuses()[u] is Pending) {
            assert forall|k: int| 0 <= k < deps.len() implies deps[k] != t by {
                assert(plan.table.deps@[u]@[k] < plan.tasks@.len());
                if u == t {
                    assert(prev.statuses()[deps[k] as int] is Finished);
                } else {
                    assert(prev.statuses()[deps[k] as int] is Finished);
                }
            }
            assert forall|k: int|
                0 <= k < deps.len() implies
                self.statuses()[#[trigger] deps[k] as int] == prev.statuses()[deps[k] as int]
                && self.skipped()[deps[k] as int] == prev.skipped()[deps[k] as int] by {
                assert(deps[k] != t);
                assert(plan.table.deps@[u]@[k] < plan.tasks@.len());
            }
        }
    }
}

impl Runner {
    /// No state goes back on itself.
    proof fn lemma_follows_itself(&self)
        ensures
            self.follows(*self),
    {
    }

    /// What was decided on the way from `first` to `mid` stays decided on
    /// the way from `mid` to this state.
    proof fn lemma_decided_through(&self, mid: Runner, first: Runner, plan: TaskPlan)
        requires
            first.wf(plan),
            mid.wf(plan),
            self.wf(plan),
            mid.follows(first),
            self.follows(mid),
            mid.decided_from(first, plan),
            self.decided_from(mid, plan),
        ensures
            self.follows(first),
            self.decided_from(first, plan),
    {
        let n = plan.tasks@.len();
        assert forall|t: int| 0 <= t < n implies (if (#[trigger] first.statuses()[t]) is Pending {
            match self.statuses()[t] {
                TaskStatus::Pending => true,
                TaskStatus::Running => self.ready(plan, t) && !(plan.tasks@[t].can_skip && self.all_skipped(plan, t)),
                TaskStatus::Finished => self.ready(plan, t) && plan.tasks@[t].can_skip && self.all_skipped(plan, t) && self.skipped()[t],
            }
        } else {
            self.statuses()[t] == first.statuses()[t]
        }) by {
            assert(mid.statuses()[t] is Pending || self.statuses()[t] == mid.statuses()[t]);
            if first.statuses()[t] is Pending && !(mid.statuses()[t] is Pending) {
                let deps = plan.table.deps@[t]@;
                assert(mid.task_consistent(deps, plan.tasks@[t].can_skip, t));
                assert forall|k: int|
                    0 <= k < deps.len() implies
                    self.statuses()[#[trigger] deps[k] as int] is Finished && self.skipped()[deps[k] as int]
                    == mid.skipped()[deps[k] as int] by {
                    assert(plan.table.deps@[t]@[k] < n);
                    assert(mid.statuses()[deps[k] as int] is Finished);
                }
            }
        }
    }

    /// Decides every pending task that is ready, again and again until no
    /// pending task is ready: each is skipped if it can be and every task it
    /// waits for was skipped, and is to be started otherwise. Gives the
    /// tasks to start.
    pub fn start_ready(&mut self, plan: &TaskPlan) -> (spawn: Vec<usize>)
        requires
            old(self).wf(*plan),
        ensures
            final(self).wf(*plan),
            final(self).follows(*old(self)),
            final(self).decided_from(*old(self), *plan),
            forall|t: int|
                0 <= t < plan.tasks@.len() && final(self).statuses()[t] is Pending ==> !#[trigger] final(self).ready(*plan, t),
            spawn@.no_duplicates(),
            forall|i: int|
                0 <= i < spawn@.len() ==> {
                    &&& (#[trigger] spawn@[i]) < plan.tasks@.len()
                    &&& old(self).statuses()[spawn@[i] as int] is Pending
                    &&& final(self).statuses()[spawn@[i] as int] is Running
                },
            forall|t: int|
                0 <= t < plan.tasks@.len() && old(self).statuses()[t] is Pending && final(self).statuses()[t] is Running
                    ==> exists|i: int| 0 <= i < spawn@.len() && #[trigger] spawn@[i] == t,
    {
        let ghost start = *self;
        let mut spawn: Vec<usize> = Vec::new();
        loop
            invariant
                start.wf(*plan),
                self.wf(*plan),
                self.follows(start),
                self.decided_from(start, *plan),
                spawn@.no_duplicates(),
                forall|i: int|
                    0 <= i < spawn@.len() ==> {
                        &&& (#[trigger] spawn@[i]) < plan.tasks@.len()
                        &&& start.statuses()[spawn@[i] as int] is Pending
                        &&& self.statuses()[spawn@[i] as int] is Running
                    },
                forall|t: int|
                    0 <= t < plan.tasks@.len() && start.statuses()[t] is Pending && self.statuses()[t] is Running ==> exists|i: int|
                        0 <= i < spawn@.len() && #[trigger] spawn@[i] == t,
            ensures
                start.wf(*plan),
                self.wf(*plan),
                self.follows(start),
                self.decided_from(start, *plan),
                forall|t: int| 0 <= t < plan.tasks@.len() && self.statuses()[t] is Pending ==> !#[trigger] self.ready(*plan, t),
                spawn@.no_duplicates(),
                forall|i: int|
                    0 <= i < spawn@.len() ==> {
                        &&& (#[trigger] spawn@[i]) < plan.tasks@.len()
                        &&& start.statuses()[spawn@[i] as int] is Pending
                        &&& self.statuses()[spawn@[i] as int] is Running
                    },
                forall|t: int|
                    0 <= t < plan.tasks@.len() && start.statuses()[t] is Pending && self.statuses()[t] is Running ==> exists|i: int|
                        0 <= i < spawn@.len() && #[trigger] spawn@[i] == t,
            decreases count_pending(self.statuses()),
        {
            let ghost mid = *self;
            let ghost spawn1 = spawn@;
            let progress = self.pass(plan, &mut spawn);
            proof {
                self.lemma_decided_through(mid, start, *plan);
                assert forall|i: int| 0 <= i < spawn@.len() implies {
                    &&& (#[trigger] spawn@[i]) < plan.tasks@.len()
                    &&& start.statuses()[spawn@[i] as int] is Pending
                    &&& self.statuses()[spawn@[i] as int] is Running
                } by {
                    if i < spawn1.len() {
                        assert(spawn@.take(spawn1.len() as int)[i] == spawn@[i]);
                        assert(mid.statuses()[spawn1[i] as int] is Running);
                    } else {
                        let t = spawn@[i] as int;
                        assert(mid.statuses()[t] is Pending);
                        assert(start.statuses()[t] is Pending);
                    }
                }
                assert forall|i: int, j: int| 0 <= i < j < spawn@.len() implies spawn@[i] != spawn@[j] by {
                    if i < spawn1.len() {
                        assert(spawn@.take(spawn1.len() as int)[i] == spawn@[i]);
                        if j < spawn1.len() {
                            assert(spawn@.take(spawn1.len() as int)[j] == spawn@[j]);
                        } else {
                            assert(mid.statuses()[spawn@[i] as int] is Running);
                            assert(mid.statuses()[spawn@[j] as int] is Pending);
                        }
                    }
                }
                assert forall|t: int|
                    0 <= t < plan.tasks@.len() && start.statuses()[t] is Pending && self.statuses()[t] is Running implies exists|i: int|
                    0 <= i < spawn@.len() && #[trigger] spawn@[i] == t by {
                    if mid.statuses()[t] is Running {
                        let i = choose|i: int| 0 <= i < spawn1.len() && #[trigger] spawn1[i] == t;
                        assert(spawn@.take(spawn1.len() as int)[i] == spawn@[i]);
                    } else {
                        assert(mid.statuses()[t] is Pending);
                        let i = choose|i: int| spawn1.len() <= i < spawn@.len() && #[trigger] spawn@[i] == t;
                    }
                }
            }
            if !progress {
                break;
            }
        }
        spawn
    }

    /// What is to be done next: nothing if every task is finished; else the
    /// pending tasks that are ready are decided, and those that are not
    /// skipped are to be started.
    pub fn poll(&mut self, plan: &TaskPlan) -> (r: Poll)
        requires
            old(self).wf(*plan),
        ensures
            final(self).wf(*plan),
            final(self).follows(*old(self)),
            final(self).decided_from(*old(self), *plan),
            forall|t: int|
                0 <= t < plan.tasks@.len() && final(self).statuses()[t] is Pending ==> !#[trigger] final(self).ready(*plan, t),
            match r {
                Poll::Done => forall|t: int| 0 <= t < final(self).statuses().len() ==> final(self).statuses()[t] is Finished,
                Poll::Spawn(spawn) => {
                    &&& spawn@.len() > 0
                    &&& spawn@.no_duplicates()
                    &&& forall|i: int|
                        0 <= i < spawn@.len() ==> {
                            &&& (#[trigger] spawn@[i]) < plan.tasks@.len()
                            &&& old(self).statuses()[spawn@[i] as int] is Pending
                            &&& final(self).statuses()[spawn@[i] as int] is Running
                        }
                    &&& forall|t: int|
                        0 <= t < plan.tasks@.len() && old(self).statuses()[t] is Pending && final(self).statuses()[t] is Running
                            ==> exists|i: int| 0 <= i < spawn@.len() && #[trigger] spawn@[i] == t
                },
                Poll::Wait => {
                    &&& exists|t: int| 0 <= t < final(self).statuses().len() && final(self).statuses()[t] is Running
                    &&& forall|t: int|
                        0 <= t < plan.tasks@.len() && old(self).statuses()[t] is Pending ==>
                            !(final(self).statuses()[t] is Running)
                },
                Poll::Stalled => {
                    &&& !(forall|t: int| 0 <= t < final(self).statuses().len() ==> final(self).statuses()[t] is Finished)
                    &&& !(exists|t: int| 0 <= t < final(self).statuses().len() && final(self).statuses()[t] is Running)
                },
            },
    {
        let spawn = self.start_ready(plan);
        if self.all_finished() {
            Poll::Done
        } else if spawn.len() > 0 {
            Poll::Spawn(spawn)
        } else if self.any_running() {
            proof {
                assert forall|t: int|
                    0 <= t < plan.tasks@.len() && old(self).statuses()[t] is Pending implies
                    !(self.statuses()[t] is Running) by {
                    if self.statuses()[t] is Running {
                        let i = choose|i: int| 0 <= i < spawn@.len() && #[trigger] spawn@[i] == t;
                    }
                }
            }
            Poll::Wait
        } else {
            Poll::Stalled
        }
    }

    /// Takes note of what happened. A task that ended well is finished, and
    /// the time of its end is recorded under its key. A task that ended badly
    /// ends the run as a failure, and the wish of the user ends it as a
    /// success; in both cases the state stays as it is. Word of a task that
    /// does not run changes nothing.
    pub fn handle(&mut self, plan: &TaskPlan, fingerprints: &mut Fingerprints, event: Event) -> (r: Outcome)
        requires
            old(self).wf(*plan),
            old(fingerprints).wf(),
        ensures
            final(self).wf(*plan),
            final(self).follows(*old(self)),
            final(fingerprints).wf(),
            match event {
                Event::ExitRequested => r == (Outcome::Stop { success: true }) && *final(self) == *old(self) && final(fingerprints)@ == old(fingerprints)@,
                Event::Completed { task, success } => if task < plan.tasks@.len() && old(self).statuses()[task as int] is Running {
                    if success {
                        &&& r == Outcome::Continue
                        &&& final(self).statuses() == old(self).statuses().update(task as int, TaskStatus::Finished)
                        &&& final(self).skipped() == old(self).skipped()
                        &&& final(fingerprints)@.dom() == old(fingerprints)@.dom().insert(plan.tasks@[task as int].key@)
                        &&& forall|k: Seq<char>|
                            k != plan.tasks@[task as int].key@ && old(fingerprints)@.contains_key(k) ==>
                                final(fingerprints)@[k] == old(fingerprints)@[k]
                    } else {
                        r == (Outcome::Stop { success: false }) && *final(self) == *old(self) && final(fingerprints)@ == old(fingerprints)@
                    }
                } else {
                    r == Outcome::Continue && *final(self) == *old(self) && final(fingerprints)@ == old(fingerprints)@
                },
            },
    {
        proof {
            self.lemma_follows_itself();
        }
        match event {
            Event::ExitRequested => Outcome::Stop { success: true },
            Event::Completed { task, success } => {
                if task >= plan.tasks.len() || !matches!(self.statuses[task], TaskStatus::Running) {
                    return Outcome::Continue;
                }
                if !success {
                    return Outcome::Stop { success: false };
                }
                let ghost before = *self;
                self.statuses.set(task, TaskStatus::Finished);
                self.finished = Ghost(self.finished@.update(task as int, Some(self.clock@)));
                self.clock = Ghost(self.clock@ + 1);
                proof {
                    let n = plan.tasks@.len();
                    assert forall|u: int|
                        0 <= u < n implies
                        self.task_consistent(#[trigger] plan.table.deps@[u]@, plan.tasks@[u].can_skip, u) by {
                        let deps = plan.table.deps@[u]@;
                        assert(before.task_consistent(deps, plan.tasks@[u].can_skip, u));
                        if !(self.statuses()[u] is Pending) {
                            assert forall|k: int| 0 <= k < deps.len() implies {
                                &&& self.statuses()[#[trigger] deps[k] as int] is Finished
                                &&& self.finished_at()[deps[k] as int] is Some
                                &&& self.started_at()[u] is Some ==> self.finished_at()[deps[k] as int]->0 < self.started_at()[u]->0
                                &&& self.finished_at()[u] is Some ==> self.finished_at()[deps[k] as int]->0 < self.finished_at()[u]->0
                                &&& self.skipped()[u] ==> self.skipped()[deps[k] as int]
                            } by {
                                let d = deps[k] as int;
                                assert(plan.table.deps@[u]@[k] < n);
                                assert(before.statuses()[d] is Finished);
                                assert(before.task_consistent(plan.table.deps@[d]@, plan.tasks@[d].can_skip, d));
                            }
                        }
                    }
                }
                proof {
                    assert(before.task_consistent(plan.table.deps@[task as int]@, plan.tasks@[task as int].can_skip, task as int));
                    assert(self.skipped() == before.skipped());
                    assert(self.follows(before));
                }
                fingerprints.update_time(plan.tasks[task].key.clone());
                Outcome::Continue
            },
        }
    }
}

/// Whether the recorded times are written back after a run of the command
/// called `root_name`: after every command but the one that cleans.
pub fn should_save_fingerprints(root_name: &str) -> (r: bool)
    ensures
        r == (root_name@ != "clean"@),
{
    !str_eq(root_name, "clean")
}

/// How a run ends: what it returns, and what is only logged.
pub struct RunEnd<E> {
    /// What the run returns.
    pub result: Result<(), E>,
    /// The error that is logged and returned to nobody.
    pub logged: Option<E>,
}

/// What is logged where the recorded times were written back with the
/// outcome `saved`, which is nothing where they were not written back: the
/// error of the writing, if it failed.
pub open spec fn save_error<E>(saved: Option<Result<(), E>>) -> Option<E> {
    match saved {
        Some(Err(e)) => Some(e),
        _ => None,
    }
}

/// How a run ends whose tasks came to `run` and whose recorded times were
/// written back with the outcome `saved`: the run returns what its tasks
/// came to, the error of the first task that failed or success; a failure to
/// write the times back is logged and does not take the place of either.
pub fn run_result<E>(run: Result<(), E>, saved: Option<Result<(), E>>) -> (r: RunEnd<E>)
    ensures
        r.result == run,
        r.logged == save_error(saved),
{
    let logged = match saved {
        Some(Err(e)) => Some(e),
        _ => None,
    };
    RunEnd { result: run, logged }
}

/// Whether the run is shown on the whole screen: when that is not switched
/// off and the root command runs forever. Otherwise it is shown line by line.
pub fn use_fullscreen(no_fullscreen: bool, runtime: Option<CommandRuntime>) -> (r: bool)
    ensures
        r == (!no_fullscreen && runtime == Some(CommandRuntime::RunForever)),
{
    !no_fullscreen && matches!(runtime, Some(CommandRuntime::RunForever))
}

/// A task is started only after every task that it waits for is finished:
/// the end of each of them comes before its start.
pub proof fn lemma_completion_before_start(runner: Runner, plan: TaskPlan, t: int, k: int)
    requires
        runner.wf(plan),
        0 <= t < plan.tasks@.len(),
        0 <= k < plan.table.deps@[t]@.len(),
        runner.started_at()[t] is Some,
    ensures
        runner.finished_at()[plan.table.deps@[t]@[k] as int] is Some,
        runner.finished_at()[plan.table.deps@[t]@[k] as int]->0 < runner.started_at()[t]->0,
{
    assert(runner.task_consistent(plan.table.deps@[t]@, plan.tasks@[t].can_skip, t));
}

/// A task is passed over only if it can be skipped and every task that it
/// waits for was passed over too.
pub proof fn lemma_skipped_only_after_skipped(runner: Runner, plan: TaskPlan, t: int, k: int)
    requires
        runner.wf(plan),
        0 <= t < plan.tasks@.len(),
        0 <= k < plan.table.deps@[t]@.len(),
        runner.skipped()[t],
    ensures
        plan.tasks@[t].can_skip,
        runner.skipped()[plan.table.deps@[t]@[k] as int],
{
    assert(runner.task_consistent(plan.table.deps@[t]@, plan.tasks@[t].can_skip, t));
}

/// Where no task runs and no pending task is ready, a task is finished: were
/// it pending, a task that it waits for would have to be pending too, and
/// one of those that this one waits for, and so on without end, in a graph
/// that has an end.
proof fn lemma_task_is_finished(runner: Runner, tg: TaskGraph, t: int)
    requires
        tg.graph.wf(),
        forall|x: u64| #[trigger] tg.graph.has_node(x) <==> x < tg.plan.tasks@.len(),
        forall|x: u64| #[trigger] tg.graph.has_node(x) ==> tg.graph.deps(x) == tg.plan.table.deps@[x as int]@,
        tg.plan.tasks@.len() <= u64::MAX,
        runner.wf(tg.plan),
        forall|u: int| 0 <= u < tg.plan.tasks@.len() ==> !(runner.statuses()[u] is Running),
        forall|u: int| 0 <= u < tg.plan.tasks@.len() && runner.statuses()[u] is Pending ==> !#[trigger] runner.ready(tg.plan, u),
        0 <= t < tg.plan.tasks@.len(),
    ensures
        runner.statuses()[t] is Finished,
    decreases tg.graph.all_deps(t as u64).len(),
{
    if runner.statuses()[t] is Pending {
        let plan = tg.plan;
        let row = plan.table.deps@[t]@;
        assert(!runner.ready(plan, t));
        let k = choose|k: int| 0 <= k < row.len() && !(runner.statuses()[#[trigger] row[k] as int] is Finished);
        let d = row[k];
        assert(plan.table.deps@[t]@[k] < plan.tasks@.len());
        assert(tg.graph.has_node(t as u64));
        assert(tg.graph.deps(t as u64).contains(d)) by {
            assert(tg.graph.deps(t as u64)[k] == d);
        }
        lemma_immediate_depends(tg.graph.deps_fn(), t as u64, d);
        tg.graph.lemma_fewer_deps(plan.tasks@.len(), t as u64, d);
        lemma_task_is_finished(runner, tg, d as int);
    }
}

/// A run does not get stuck: where the tasks do not wait for each other in
/// a circle, no task runs, and no pending task is ready, every task is
/// finished.
pub proof fn lemma_run_does_not_stall(runner: Runner, tg: TaskGraph, ws: Workspace, cg: CommandGraph)
    requires
        tg.wf(ws, cg),
        runner.wf(tg.plan),
        forall|u: int| 0 <= u < tg.plan.tasks@.len() ==> !(runner.statuses()[u] is Running),
        forall|u: int| 0 <= u < tg.plan.tasks@.len() && runner.statuses()[u] is Pending ==> !#[trigger] runner.ready(tg.plan, u),
    ensures
        forall|u: int| 0 <= u < tg.plan.tasks@.len() ==> runner.statuses()[u] is Finished,
{
    assert forall|u: int| 0 <= u < tg.plan.tasks@.len() implies runner.statuses()[u] is Finished by {
        lemma_task_is_finished(runner, tg, u);
    }
}

/// Within a command that waits for its dependencies, the task of a package
/// is started only after the task of the same command has ended for every
/// package that its package depends on.
pub proof fn lemma_packages_in_order(runner: Runner, plan: TaskPlan, ws: Workspace, cg: CommandGraph, t: int, d: u64)
    requires
        plan.wf(ws, cg),
        runner.wf(plan),
        0 <= t < plan.tasks@.len(),
        plan.tasks@[t].package is Some,
        cg.commands@[plan.tasks@[t].command as int].runtime is WaitForDependencies,
        ws.pkg_graph.deps(plan.tasks@[t].package->0 as u64).contains(d),
        runner.started_at()[t] is Some,
    ensures
        exists|k: int|
            {
                &&& #[trigger] waits_for_package(plan, ws, cg, t, d, k)
                &&& runner.finished_at()[plan.table.deps@[t]@[k] as int] is Some
                &&& runner.finished_at()[plan.table.deps@[t]@[k] as int]->0 < runner.started_at()[t]->0
            },
{
    lemma_waits_for_package_dependencies(plan, ws, cg, t, d);
    let k = choose|k: int| waits_for_package(plan, ws, cg, t, d, k);
    lemma_completion_before_start(runner, plan, t, k);
}

} // verus!
