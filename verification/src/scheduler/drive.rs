//! The drive of a schedule: which test starts when. Tests of the parallel
//! part run side by side on a bounded number of workers; once they are all
//! done, the tests of the sequential part run one after the other.

use crate::data;
use crate::data::Test;
use crate::data::TestView;
use crate::errors::ErrorView;
use crate::errors::KirkError;
use crate::scheduler::test_sched;
use crate::scheduler::test_sched::Plan;
use vstd::prelude::*;

verus! {

/// Part of the schedule that is under way.
#[derive(Debug, Clone, Copy, PartialEq, Eq, Structural)]
pub enum DrivePhase {
    /// Tests run side by side.
    Parallel,
    /// Tests run one after the other.
    Sequential,
    /// Nothing runs any more.
    Ended,
}

/// What is to be done next.
#[derive(Debug)]
pub enum DriveStep {
    /// Start a test.
    Start(Test),
    /// Wait until a running test has finished.
    Wait,
    /// The schedule has ended.
    End,
}

/// View of a step.
pub enum DriveStepView {
    /// Start a test.
    Start(TestView),
    /// Wait until a running test has finished.
    Wait,
    /// The schedule has ended.
    End,
}

impl View for DriveStep {
    type V = DriveStepView;

    open spec fn view(&self) -> DriveStepView {
        match *self {
            DriveStep::Start(t) => DriveStepView::Start(t@),
            DriveStep::Wait => DriveStepView::Wait,
            DriveStep::End => DriveStepView::End,
        }
    }
}

/// Tests of a schedule while they run.
#[derive(Debug)]
pub struct Drive {
    plan: Plan,
    workers: usize,
    phase: DrivePhase,
    next: usize,
    running: usize,
    first: Option<KirkError>,
}

/// How far a schedule has come.
#[verifier::ext_equal]
pub struct DriveView {
    /// Tests that run side by side.
    pub parallel: Seq<TestView>,
    /// Tests that run one after the other.
    pub sequential: Seq<TestView>,
    /// Number of tests that may run side by side.
    pub workers: nat,
    /// Part that is under way.
    pub phase: DrivePhase,
    /// Position in that part of the next test.
    pub next: int,
    /// Number of tests that run.
    pub running: nat,
    /// First error of a test.
    pub first: Option<ErrorView>,
}

impl View for Drive {
    type V = DriveView;

    closed spec fn view(&self) -> DriveView {
        DriveView {
            parallel: data::test_views(self.plan.parallel@),
            sequential: data::test_views(self.plan.sequential@),
            workers: self.workers as nat,
            phase: self.phase,
            next: self.next as int,
            running: self.running as nat,
            first: test_sched::opt_error(self.first),
        }
    }
}

/// A schedule before its first test.
pub open spec fn drive_start(
    parallel: Seq<TestView>,
    sequential: Seq<TestView>,
    workers: nat,
) -> DriveView {
    DriveView {
        parallel,
        sequential,
        workers,
        phase: DrivePhase::Parallel,
        next: 0,
        running: 0,
        first: None,
    }
}

/// Number of tests that may run at the same time.
pub open spec fn slots(v: DriveView) -> nat {
    match v.phase {
        DrivePhase::Parallel => v.workers,
        DrivePhase::Sequential => 1,
        DrivePhase::Ended => 0,
    }
}

/// Whether no more tests run than may, and the next one is a test of the
/// part under way or its end.
pub open spec fn drive_fits(v: DriveView) -> bool {
    &&& v.workers >= 1
    &&& v.running <= slots(v)
    &&& 0 <= v.next
    &&& v.phase == DrivePhase::Parallel ==> v.next <= v.parallel.len()
    &&& v.phase == DrivePhase::Sequential ==> v.next <= v.sequential.len()
}

/// End of a schedule.
pub open spec fn drive_ended(v: DriveView) -> DriveView {
    DriveView { phase: DrivePhase::Ended, ..v }
}

/// Step of the sequential part: a test starts when none runs, as long as
/// there was no error and no stop was asked for.
pub open spec fn sequential_step(v: DriveView, stopping: bool) -> (DriveStepView, DriveView) {
    if v.running > 0 {
        (DriveStepView::Wait, v)
    } else if v.first is Some || stopping || v.next >= v.sequential.len() {
        (DriveStepView::End, drive_ended(v))
    } else {
        (
            DriveStepView::Start(v.sequential[v.next]),
            DriveView { next: v.next + 1, running: 1, ..v },
        )
    }
}

/// Step of the parallel part: a test starts on each free worker, also after
/// an error, until a stop was asked for. When all have finished, an error ends
/// the schedule, and otherwise the sequential part follows.
pub open spec fn parallel_step(v: DriveView, stopping: bool) -> (DriveStepView, DriveView) {
    if v.next < v.parallel.len() && v.running < v.workers && !stopping {
        (
            DriveStepView::Start(v.parallel[v.next]),
            DriveView { next: v.next + 1, running: v.running + 1, ..v },
        )
    } else if v.running > 0 {
        (DriveStepView::Wait, v)
    } else if v.first is Some {
        (DriveStepView::End, drive_ended(v))
    } else {
        sequential_step(DriveView { phase: DrivePhase::Sequential, next: 0, ..v }, stopping)
    }
}

/// What is done next, and how far the schedule is then.
pub open spec fn drive_step(v: DriveView, stopping: bool) -> (DriveStepView, DriveView) {
    match v.phase {
        DrivePhase::Parallel => parallel_step(v, stopping),
        DrivePhase::Sequential => sequential_step(v, stopping),
        DrivePhase::Ended => (DriveStepView::End, v),
    }
}

/// A schedule after a test has finished: the first error is kept.
pub open spec fn drive_finished(v: DriveView, error: Option<ErrorView>) -> DriveView {
    DriveView {
        running: (v.running - 1) as nat,
        first: if v.first is Some {
            v.first
        } else {
            error
        },
        ..v
    }
}

/// Tests that have not started yet, in the order in which they would.
pub open spec fn pending(v: DriveView) -> Seq<TestView> {
    match v.phase {
        DrivePhase::Parallel => v.parallel.skip(v.next) + v.sequential,
        DrivePhase::Sequential => v.sequential.skip(v.next),
        DrivePhase::Ended => Seq::empty(),
    }
}

/// The number of workers bounds how many tests run at the same time, whatever
/// happens, and tests of the sequential part run alone.
pub proof fn workers_bound_tests(v: DriveView, stopping: bool, error: Option<ErrorView>)
    requires
        drive_fits(v),
    ensures
        ({
            let after = drive_step(v, stopping).1;
            &&& drive_fits(after)
            &&& after.running <= v.workers
            &&& after.phase == DrivePhase::Sequential ==> after.running <= 1
        }),
        v.running > 0 ==> drive_fits(drive_finished(v, error)),
{
}

/// As long as no test fails and no stop is asked for, every test starts, once
/// and in the order of the plan: the schedule ends only when none is left.
pub proof fn every_test_starts(v: DriveView)
    requires
        drive_fits(v),
        v.first is None,
    ensures
        ({
            let (step, after) = drive_step(v, false);
            match step {
                DriveStepView::Start(t) => pending(v) == seq![t] + pending(after),
                DriveStepView::Wait => pending(v) == pending(after) && after.running > 0,
                DriveStepView::End => pending(v).len() == 0,
            }
        }),
{
    let (step, after) = drive_step(v, false);
    if v.phase == DrivePhase::Parallel && v.next == v.parallel.len() {
        assert(v.parallel.skip(v.next) + v.sequential =~= v.sequential);
        assert(v.sequential.skip(0) =~= v.sequential);
    }
    match step {
        DriveStepView::Start(t) => {
            assert(pending(v) =~= seq![t] + pending(after));
        },
        _ => {},
    }
}

/// Once a test has failed or a stop was asked for, no test of the sequential
/// part starts any more.
pub proof fn errors_end_the_schedule(v: DriveView, stopping: bool)
    requires
        drive_fits(v),
        v.first is Some || stopping,
    ensures
        drive_step(v, stopping).0 is Start ==> v.phase == DrivePhase::Parallel && !stopping,
        v.running == 0 && (v.phase == DrivePhase::Sequential || stopping) ==> drive_step(
            v,
            stopping,
        ).0 is End,
{
}

/// Every test that starts leaves one fewer to start, and every test that
/// finishes one fewer that runs: the schedule ends.
pub proof fn drive_comes_to_an_end(v: DriveView, stopping: bool, error: Option<ErrorView>)
    requires
        drive_fits(v),
    ensures
        drive_step(v, stopping).0 is Start ==> pending(drive_step(v, stopping).1).len() < pending(
            v,
        ).len(),
        drive_step(v, stopping).0 is Wait ==> v.running > 0,
        v.running > 0 ==> drive_finished(v, error).running < v.running && pending(
            drive_finished(v, error),
        ) == pending(v),
{
}

/// A schedule with the tests that run and those whose results were recorded,
/// in the order of the records.
#[verifier::ext_equal]
pub struct ScheduleView {
    /// How far the schedule has come.
    pub drive: DriveView,
    /// Tests that run.
    pub running: Seq<TestView>,
    /// Tests with results.
    pub recorded: Seq<TestView>,
}

/// A schedule of tests before the first one starts.
pub open spec fn schedule_start(tests: Seq<TestView>, workers: usize) -> ScheduleView {
    ScheduleView {
        drive: drive_start(
            test_sched::parallel_part(tests, workers),
            test_sched::sequential_part(tests, workers),
            workers as nat,
        ),
        running: Seq::empty(),
        recorded: Seq::empty(),
    }
}

/// A schedule after its next step, without a stop.
pub open spec fn schedule_step(s: ScheduleView) -> ScheduleView {
    let (step, drive) = drive_step(s.drive, false);
    ScheduleView {
        drive,
        running: match step {
            DriveStepView::Start(t) => s.running.push(t),
            _ => s.running,
        },
        ..s
    }
}

/// A schedule after the running test `k` has finished without an error: its
/// result was recorded.
pub open spec fn schedule_finished(s: ScheduleView, k: int) -> ScheduleView {
    ScheduleView {
        drive: drive_finished(s.drive, None),
        running: s.running.remove(k),
        recorded: s.recorded.push(s.running[k]),
    }
}

/// Whether every test of the plan that has started runs or is recorded, once;
/// first those that run side by side, then the others in their order.
pub open spec fn records_plan(s: ScheduleView) -> bool {
    let d = s.drive;
    let n = d.parallel.len() as int;
    &&& drive_fits(d)
    &&& d.first is None
    &&& s.running.len() == d.running
    &&& if d.phase == DrivePhase::Parallel {
        s.recorded.to_multiset().add(s.running.to_multiset()) == d.parallel.take(
            d.next,
        ).to_multiset()
    } else {
        &&& n <= s.recorded.len()
        &&& s.recorded.take(n).to_multiset() == d.parallel.to_multiset()
        &&& 0 <= d.next <= d.sequential.len()
        &&& s.recorded.skip(n) + s.running == d.sequential.take(d.next)
        &&& d.phase == DrivePhase::Ended ==> d.next == d.sequential.len()
    }
}

proof fn step_records(s: ScheduleView)
    requires
        records_plan(s),
    ensures
        records_plan(schedule_step(s)),
{
    broadcast use vstd::seq_lib::group_to_multiset_ensures;
    broadcast use vstd::multiset::group_multiset_axioms;

    let d = s.drive;
    let n = d.parallel.len() as int;
    let after = schedule_step(s);
    match d.phase {
        DrivePhase::Parallel => {
            if d.next < d.parallel.len() && d.running < d.workers {
                let t = d.parallel[d.next];
                assert(d.parallel.take(d.next + 1) =~= d.parallel.take(d.next).push(t));
                assert(after.running == s.running.push(t));
                assert(after.recorded.to_multiset().add(after.running.to_multiset())
                    =~= d.parallel.take(d.next + 1).to_multiset());
            } else if d.running == 0 {
                assert(d.next == d.parallel.len());
                assert(d.parallel.take(d.next) =~= d.parallel);
                assert(s.running =~= Seq::<TestView>::empty());
                assert(s.running.to_multiset() =~= vstd::multiset::Multiset::<TestView>::empty());
                assert(s.recorded.to_multiset() =~= d.parallel.to_multiset());
                assert(s.recorded.len() == s.recorded.to_multiset().len());
                assert(d.parallel.len() == d.parallel.to_multiset().len());
                assert(s.recorded.take(n) =~= s.recorded);
                assert(s.recorded.skip(n) =~= Seq::<TestView>::empty());
                if d.sequential.len() > 0 {
                    let t = d.sequential[0];
                    assert(s.running.push(t) =~= seq![t]);
                    assert(s.recorded.skip(n) + seq![t] =~= d.sequential.take(1));
                } else {
                    assert(s.recorded.skip(n) + s.running =~= d.sequential.take(0));
                }
            }
        },
        DrivePhase::Sequential => {
            if d.running == 0 && d.next < d.sequential.len() {
                let t = d.sequential[d.next];
                assert(s.running =~= Seq::<TestView>::empty());
                assert(d.sequential.take(d.next + 1) =~= d.sequential.take(d.next).push(t));
                assert(s.recorded.skip(n) + s.running.push(t) =~= (s.recorded.skip(n)
                    + s.running).push(t));
            }
        },
        DrivePhase::Ended => {},
    }
}

proof fn finish_records(s: ScheduleView, k: int)
    requires
        records_plan(s),
        0 <= k < s.running.len(),
    ensures
        records_plan(schedule_finished(s, k)),
{
    broadcast use vstd::seq_lib::group_to_multiset_ensures;
    broadcast use vstd::multiset::group_multiset_axioms;

    let d = s.drive;
    let n = d.parallel.len() as int;
    let after = schedule_finished(s, k);
    let t = s.running[k];
    if d.phase == DrivePhase::Parallel {
        assert(after.running.to_multiset() =~= s.running.to_multiset().remove(t));
        assert(s.running.to_multiset().count(t) > 0) by {
            assert(s.running.contains(t));
        }
        assert(after.recorded.to_multiset() =~= s.recorded.to_multiset().insert(t));
        assert(after.recorded.to_multiset().add(after.running.to_multiset())
            =~= s.recorded.to_multiset().add(s.running.to_multiset()));
    } else {
        assert(s.running =~= seq![t]);
        assert(after.running =~= Seq::<TestView>::empty());
        assert(after.recorded.take(n) =~= s.recorded.take(n));
        assert(after.recorded.skip(n) + after.running =~= s.recorded.skip(n) + s.running);
    }
}

/// As long as no test gives an error and no stop is asked for, the results
/// follow the plan at every step of a schedule, whichever of the running tests
/// finishes next, and the plan stays as it is.
pub proof fn results_follow_the_plan(
    tests: Seq<TestView>,
    workers: usize,
    s: ScheduleView,
    k: int,
)
    requires
        workers >= 1,
    ensures
        records_plan(schedule_start(tests, workers)),
        records_plan(s) ==> records_plan(schedule_step(s)),
        records_plan(s) && 0 <= k < s.running.len() ==> records_plan(schedule_finished(s, k)),
        schedule_step(s).drive.parallel == s.drive.parallel,
        schedule_step(s).drive.sequential == s.drive.sequential,
        schedule_finished(s, k).drive.parallel == s.drive.parallel,
        schedule_finished(s, k).drive.sequential == s.drive.sequential,
{
    broadcast use vstd::seq_lib::group_to_multiset_ensures;
    broadcast use vstd::multiset::group_multiset_axioms;

    let start = schedule_start(tests, workers);
    assert(start.drive.parallel.take(0) =~= Seq::<TestView>::empty());
    assert(start.recorded.to_multiset().add(start.running.to_multiset())
        =~= start.drive.parallel.take(0).to_multiset());
    if records_plan(s) {
        step_records(s);
        if 0 <= k < s.running.len() {
            finish_records(s, k);
        }
    }
}

/// A schedule that has ended without an error or a stop has exactly one result
/// for each of its tests: those that run side by side first, in any order, and
/// then the others in their order. One worker keeps the order of all.
pub proof fn one_result_per_test(tests: Seq<TestView>, workers: usize, s: ScheduleView)
    requires
        workers >= 1,
        records_plan(s),
        s.drive.phase == DrivePhase::Ended,
        s.drive.parallel == test_sched::parallel_part(tests, workers),
        s.drive.sequential == test_sched::sequential_part(tests, workers),
    ensures
        s.recorded.to_multiset() == tests.to_multiset(),
        s.recorded.len() == tests.len(),
        s.recorded.skip(s.drive.parallel.len() as int) == s.drive.sequential,
        workers == 1 ==> s.recorded == tests,
{
    broadcast use vstd::seq_lib::group_to_multiset_ensures;
    broadcast use vstd::multiset::group_multiset_axioms;

    let d = s.drive;
    let n = d.parallel.len() as int;
    let front = s.recorded.take(n);
    let back = s.recorded.skip(n);
    assert(s.running =~= Seq::<TestView>::empty());
    assert(back + s.running =~= back);
    assert(d.sequential.take(d.next) =~= d.sequential);
    assert(front + back =~= s.recorded);
    vstd::seq_lib::lemma_multiset_commutative(front, back);
    test_sched::plan_covers_tests(tests, workers);
    assert(s.recorded.to_multiset() =~= tests.to_multiset());
    assert(s.recorded.to_multiset().len() == tests.to_multiset().len());
    if workers == 1 {
        assert(n == 0);
        assert(back =~= s.recorded);
    }
}

impl Drive {
    #[verifier::type_invariant]
    closed spec fn fits(self) -> bool {
        drive_fits(self@)
    }

    /// Start the drive of a plan, with at least one worker.
    pub fn new(plan: Plan, workers: usize) -> (r: Self)
        ensures
            r@ == drive_start(
                data::test_views(plan.parallel@),
                data::test_views(plan.sequential@),
                if workers == 0 {
                    1
                } else {
                    workers as nat
                },
            ),
    {
        Drive {
            plan,
            workers: if workers == 0 {
                1
            } else {
                workers
            },
            phase: DrivePhase::Parallel,
            next: 0,
            running: 0,
            first: None,
        }
    }

    /// Decide what is next, given whether a stop was asked for.
    pub fn step(&mut self, stopping: bool) -> (r: DriveStep)
        ensures
            (r@, final(self)@) == drive_step(old(self)@, stopping),
    {
        proof {
            use_type_invariant(&*self);
        }
        match self.phase {
            DrivePhase::Parallel => {
                if self.next < self.plan.parallel.len() && self.running < self.workers && !stopping {
                    let t = self.plan.parallel[self.next].clone();
                    self.next = self.next + 1;
                    self.running = self.running + 1;
                    return DriveStep::Start(t);
                }
                if self.running > 0 {
                    return DriveStep::Wait;
                }
                if self.first.is_some() {
                    self.phase = DrivePhase::Ended;
                    return DriveStep::End;
                }
                self.next = 0;
                self.phase = DrivePhase::Sequential;
                self.alone(stopping)
            },
            DrivePhase::Sequential => self.alone(stopping),
            DrivePhase::Ended => DriveStep::End,
        }
    }

    fn alone(&mut self, stopping: bool) -> (r: DriveStep)
        requires
            old(self)@.phase == DrivePhase::Sequential,
        ensures
            (r@, final(self)@) == sequential_step(old(self)@, stopping),
    {
        proof {
            use_type_invariant(&*self);
        }
        if self.running > 0 {
            return DriveStep::Wait;
        }
        if self.first.is_some() || stopping || self.next >= self.plan.sequential.len() {
            self.phase = DrivePhase::Ended;
            return DriveStep::End;
        }
        let t = self.plan.sequential[self.next].clone();
        self.next = self.next + 1;
        self.running = 1;
        DriveStep::Start(t)
    }

    /// A test has finished, with the error that ends the schedule, if any.
    pub fn finished(&mut self, error: Option<KirkError>)
        requires
            old(self)@.running > 0,
        ensures
            final(self)@ == drive_finished(old(self)@, test_sched::opt_error(error)),
    {
        proof {
            use_type_invariant(&*self);
        }
        self.running = self.running - 1;
        if self.first.is_none() {
            self.first = error;
        }
    }

    /// Number of tests that run.
    pub fn running(&self) -> (n: usize)
        ensures
            n == self@.running,
    {
        self.running
    }

    /// First error of a test, when the schedule has ended.
    pub fn error(self) -> (r: Option<KirkError>)
        ensures
            test_sched::opt_error(r) == self@.first,
    {
        self.first
    }
}

/// Workers are put to use: as long as tests of the parallel part are left and
/// no stop was asked for, a test waits only where every worker is busy. Such a
/// test starts also after another one has failed.
pub proof fn free_workers_are_used(v: DriveView)
    requires
        drive_fits(v),
        v.phase == DrivePhase::Parallel,
        v.next < v.parallel.len(),
    ensures
        ({
            let (step, after) = drive_step(v, false);
            &&& v.running < v.workers ==> step == DriveStepView::Start(v.parallel[v.next])
                && after.running == v.running + 1
            &&& v.running == v.workers ==> step is Wait && after == v
        }),
{
}

/// The error that a schedule reports is the first one that a test gave, and no
/// step takes it back.
pub proof fn first_error_stays(
    v: DriveView,
    stopping: bool,
    error: Option<ErrorView>,
)
    ensures
        drive_step(v, stopping).1.first == v.first,
        v.first is None ==> drive_finished(v, error).first == error,
        v.first is Some ==> drive_finished(v, error).first == v.first,
        v.running > 0 ==> drive_finished(v, error).running == v.running - 1,
        drive_finished(v, error).parallel == v.parallel,
        drive_finished(v, error).sequential == v.sequential,
        drive_finished(v, error).workers == v.workers,
        drive_finished(v, error).next == v.next,
        drive_finished(v, error).phase == v.phase,
{
}

/// A test of the sequential part starts only when nothing else runs, and a
/// schedule ends only when nothing runs any more.
pub proof fn nothing_is_left_running(v: DriveView, stopping: bool)
    requires
        drive_fits(v),
        v.phase != DrivePhase::Ended,
    ensures
        ({
            let (step, after) = drive_step(v, stopping);
            &&& step is End ==> v.running == 0 && after.phase == DrivePhase::Ended
            &&& step is Wait ==> v.running > 0
            &&& step is Start && after.phase == DrivePhase::Sequential ==> v.running == 0
                && after.running == 1
        }),
{
}

} // verus!
