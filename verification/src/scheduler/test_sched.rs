//! Test scheduler: which tests run side by side, what a test comes to, and
//! when its error ends the schedule.

use crate::com::CmdResult;
use crate::data;
use crate::data::Test;
use crate::data::TestView;
use crate::dict;
use crate::errors::ErrorView;
use crate::errors::KirkError;
use crate::results;
use crate::results::TestResults;
use crate::results::TestResultsView;
use crate::text;
use vstd::prelude::*;
use vstd::string::*;

verus! {

/// Return code of a test that was killed.
pub const KILLED_RETURNCODE: i32 = -9;

/// Status of the execution of a test.
#[derive(Debug, Clone, Copy, PartialEq, Eq, Structural)]
pub enum TestStatus {
    /// Test completed without kernel interference.
    Completed,
    /// Test exceeded its execution timeout but the target still replies.
    TestTimeout,
    /// Kernel panic detected during the test.
    KernelPanic,
    /// Kernel taint flags changed during the test.
    KernelTainted,
    /// Target stopped replying after a test timeout.
    KernelTimeout,
}

/// Capture of the output of a test, which survives where the test does not
/// end.
#[derive(Debug)]
pub struct StdoutBuffer {
    inner: String,
}

impl View for StdoutBuffer {
    type V = Seq<char>;

    closed spec fn view(&self) -> Seq<char> {
        self.inner@
    }
}

impl Default for StdoutBuffer {
    fn default() -> (r: Self)
        ensures
            r@ == Seq::<char>::empty(),
    {
        StdoutBuffer { inner: String::new() }
    }
}

impl StdoutBuffer {
    /// Append `data` to the capture.
    pub fn push(&mut self, data: &str)
        ensures
            final(self)@ == old(self)@ + data@,
    {
        self.inner.append(data);
    }

    /// Current contents.
    pub fn snapshot(&self) -> (r: String)
        ensures
            r@ == self@,
    {
        self.inner.clone()
    }
}

/// Whether a duration is in force: a positive finite number of seconds, as the
/// bits of an IEEE 754 double.
pub open spec fn in_force(bits: u64) -> bool {
    0 < bits < 0x7ff0_0000_0000_0000
}

/// A timeout that is in force. Any other is disabled, which is zero.
pub open spec fn timeout_in_force(bits: u64) -> u64 {
    if in_force(bits) {
        bits
    } else {
        0
    }
}

/// Timeout that is in force.
pub fn clamp_timeout(bits: u64) -> (r: u64)
    ensures
        r == timeout_in_force(bits),
{
    if 0 < bits && bits < 0x7ff0_0000_0000_0000 {
        bits
    } else {
        0
    }
}

/// What a command came to.
#[verifier::ext_equal]
pub struct RowView {
    /// Command that was executed.
    pub command: Seq<char>,
    /// Its return code.
    pub returncode: i32,
    /// Its output.
    pub stdout: Seq<char>,
    /// Its execution time.
    pub exec_time: u64,
}

/// View of the result of a command.
pub open spec fn row_view(r: CmdResult) -> RowView {
    RowView {
        command: r.command@,
        returncode: r.returncode,
        stdout: r.stdout@,
        exec_time: r.exec_time,
    }
}

/// View of the result of a command, if any.
pub open spec fn opt_row(r: Option<CmdResult>) -> Option<RowView> {
    match r {
        Some(r) => Some(row_view(r)),
        None => None,
    }
}

/// View of an error, if any.
pub open spec fn opt_error(e: Option<KirkError>) -> Option<ErrorView> {
    match e {
        Some(e) => Some(e@),
        None => None,
    }
}

/// What the execution of a test does next.
#[derive(Debug, Clone, Copy, PartialEq, Eq, Structural)]
pub enum ExecStep {
    /// Read the taint flags before the test.
    TaintBefore,
    /// Run the command.
    Run,
    /// Ping the target.
    Ping,
    /// Read the taint flags after the test.
    TaintAfter,
    /// Nothing more.
    Done,
}

/// Execution of a test.
#[derive(Debug)]
pub struct ExecTest {
    step: ExecStep,
    before: i64,
    row: Option<CmdResult>,
    status: TestStatus,
    detail: String,
    fatal: Option<KirkError>,
}

/// How far the execution of a test has come.
#[verifier::ext_equal]
pub struct ExecView {
    /// What is next.
    pub step: ExecStep,
    /// Taint flags before the test.
    pub before: i64,
    /// What the command came to, if it ended.
    pub row: Option<RowView>,
    /// Status so far.
    pub status: TestStatus,
    /// What is known of a kernel error.
    pub detail: Seq<char>,
    /// Error that ended the execution.
    pub fatal: Option<ErrorView>,
}

impl View for ExecTest {
    type V = ExecView;

    closed spec fn view(&self) -> ExecView {
        ExecView {
            step: self.step,
            before: self.before,
            row: opt_row(self.row),
            status: self.status,
            detail: self.detail@,
            fatal: opt_error(self.fatal),
        }
    }
}

/// Execution before anything was done.
pub open spec fn exec_start() -> ExecView {
    ExecView {
        step: ExecStep::TaintBefore,
        before: 0,
        row: None,
        status: TestStatus::Completed,
        detail: Seq::empty(),
        fatal: None,
    }
}

/// Execution ended by an error.
pub open spec fn exec_fatal(v: ExecView, e: ErrorView) -> ExecView {
    ExecView { step: ExecStep::Done, row: None, status: TestStatus::Completed, fatal: Some(e), ..v }
}

/// Taint flags with their messages, or the error that they gave.
pub enum TaintView {
    /// Code and messages.
    Flags(i64, Seq<Seq<char>>),
    /// Error.
    Failed(ErrorView),
}

/// View of taint flags.
pub open spec fn taint_view(r: Result<(i64, Vec<String>), KirkError>) -> TaintView {
    match r {
        Ok((code, messages)) => TaintView::Flags(code, text::texts(messages@)),
        Err(e) => TaintView::Failed(e@),
    }
}

/// Execution after the taint flags were read.
pub open spec fn after_taint(v: ExecView, flags: TaintView) -> ExecView {
    match flags {
        TaintView::Failed(ErrorView::KernelPanic(partial)) => ExecView {
            step: ExecStep::Done,
            status: TestStatus::KernelPanic,
            detail: partial,
            ..v
        },
        TaintView::Failed(e) => exec_fatal(v, e),
        TaintView::Flags(code, messages) => if v.step == ExecStep::TaintBefore {
            ExecView { step: ExecStep::Run, before: code, ..v }
        } else if code != v.before {
            ExecView {
                step: ExecStep::Done,
                status: TestStatus::KernelTainted,
                detail: text::joined(messages, ", "@),
                ..v
            }
        } else {
            ExecView { step: ExecStep::Done, ..v }
        },
    }
}

/// What the command of a test came to.
#[derive(Debug)]
pub enum RunOutcome {
    /// It ended.
    Ended(Result<Option<CmdResult>, KirkError>),
    /// It took longer than the timeout.
    Elapsed,
}

/// Execution after the command ran.
pub open spec fn after_run(v: ExecView, outcome: RunOutcome) -> ExecView {
    match outcome {
        RunOutcome::Ended(Ok(Some(row))) => ExecView {
            step: ExecStep::TaintAfter,
            row: Some(row_view(row)),
            ..v
        },
        RunOutcome::Ended(Ok(None)) => exec_fatal(
            v,
            ErrorView::Scheduler("Test command return None"@),
        ),
        RunOutcome::Ended(Err(e)) => match e@ {
            ErrorView::KernelPanic(partial) => ExecView {
                step: ExecStep::Done,
                status: TestStatus::KernelPanic,
                detail: partial,
                ..v
            },
            x => exec_fatal(v, x),
        },
        RunOutcome::Elapsed => ExecView {
            step: ExecStep::Ping,
            status: TestStatus::TestTimeout,
            ..v
        },
    }
}

/// What a ping came to.
#[derive(Debug)]
pub enum PingOutcome {
    /// The target replied.
    Replied,
    /// The ping failed.
    Failed(KirkError),
    /// The target did not reply in time.
    Elapsed,
}

/// Execution after the target was pinged.
pub open spec fn after_ping(v: ExecView, outcome: PingOutcome) -> ExecView {
    match outcome {
        PingOutcome::Replied => ExecView { step: ExecStep::Done, ..v },
        PingOutcome::Elapsed => ExecView {
            step: ExecStep::Done,
            status: TestStatus::KernelTimeout,
            ..v
        },
        PingOutcome::Failed(e) => match e@ {
            ErrorView::KernelTimeout(_) => ExecView {
                step: ExecStep::Done,
                status: TestStatus::KernelTimeout,
                ..v
            },
            x => exec_fatal(v, x),
        },
    }
}

/// Result of a finished execution, where there is one: that of the command,
/// or one with return code -1 and the output that was seen.
pub open spec fn exec_row(
    v: ExecView,
    command: Seq<char>,
    captured: Seq<char>,
    exec_time: u64,
) -> Option<RowView> {
    if v.fatal is Some {
        None
    } else if v.status == TestStatus::Completed || v.status == TestStatus::KernelTainted {
        v.row
    } else {
        Some(
            RowView {
                command,
                returncode: -1i32,
                stdout: if v.detail.len() == 0 {
                    captured
                } else {
                    v.detail
                },
                exec_time,
            },
        )
    }
}

impl ExecTest {
    /// Start the execution of a test.
    pub fn new() -> (r: Self)
        ensures
            r@ == exec_start(),
    {
        ExecTest {
            step: ExecStep::TaintBefore,
            before: 0,
            row: None,
            status: TestStatus::Completed,
            detail: String::new(),
            fatal: None,
        }
    }

    /// What is next.
    pub fn step(&self) -> (r: ExecStep)
        ensures
            r == self@.step,
    {
        self.step
    }

    fn fail(&mut self, e: KirkError)
        ensures
            final(self)@ == exec_fatal(old(self)@, e@),
    {
        self.step = ExecStep::Done;
        self.row = None;
        self.status = TestStatus::Completed;
        self.fatal = Some(e);
    }

    /// Take in the taint flags. Gives the message of the event to fire where
    /// the test has changed them.
    pub fn tainted(&mut self, flags: Result<(i64, Vec<String>), KirkError>) -> (r: Option<String>)
        requires
            old(self)@.step == ExecStep::TaintBefore || old(self)@.step == ExecStep::TaintAfter,
        ensures
            final(self)@ == after_taint(old(self)@, taint_view(flags)),
            text::opt_text(r) == (match flags {
                Ok((code, messages)) => if old(self)@.step == ExecStep::TaintAfter && code != old(
                    self,
                )@.before {
                    Some(text::joined(text::texts(messages@), ", "@))
                } else {
                    None
                },
                Err(_) => None,
            }),
    {
        match flags {
            Err(KirkError::KernelPanic(partial)) => {
                self.step = ExecStep::Done;
                self.status = TestStatus::KernelPanic;
                self.detail = partial;
            },
            Err(e) => self.fail(e),
            Ok((code, messages)) => {
                if self.step == ExecStep::TaintBefore {
                    self.step = ExecStep::Run;
                    self.before = code;
                } else if code != self.before {
                    self.step = ExecStep::Done;
                    self.status = TestStatus::KernelTainted;
                    self.detail = text::join(&messages, ", ");
                    return Some(self.detail.clone());
                } else {
                    self.step = ExecStep::Done;
                }
            },
        }
        None
    }

    /// Take in what the command came to.
    pub fn ran(&mut self, outcome: RunOutcome)
        requires
            old(self)@.step == ExecStep::Run,
        ensures
            final(self)@ == after_run(old(self)@, outcome),
    {
        match outcome {
            RunOutcome::Ended(Ok(Some(row))) => {
                self.step = ExecStep::TaintAfter;
                self.row = Some(row);
            },
            RunOutcome::Ended(Ok(None)) => self.fail(
                KirkError::Scheduler(text::owned("Test command return None")),
            ),
            RunOutcome::Ended(Err(KirkError::KernelPanic(partial))) => {
                self.step = ExecStep::Done;
                self.status = TestStatus::KernelPanic;
                self.detail = partial;
            },
            RunOutcome::Ended(Err(e)) => self.fail(e),
            RunOutcome::Elapsed => {
                self.step = ExecStep::Ping;
                self.status = TestStatus::TestTimeout;
            },
        }
    }

    /// Take in what a ping came to.
    pub fn pinged(&mut self, outcome: PingOutcome)
        requires
            old(self)@.step == ExecStep::Ping,
        ensures
            final(self)@ == after_ping(old(self)@, outcome),
    {
        match outcome {
            PingOutcome::Replied => {
                self.step = ExecStep::Done;
            },
            PingOutcome::Elapsed => {
                self.step = ExecStep::Done;
                self.status = TestStatus::KernelTimeout;
            },
            PingOutcome::Failed(KirkError::KernelTimeout(_)) => {
                self.step = ExecStep::Done;
                self.status = TestStatus::KernelTimeout;
            },
            PingOutcome::Failed(e) => self.fail(e),
        }
    }

    /// What the execution came to, given the command, the output that was
    /// captured and the time it took.
    pub fn finish(self, command: &str, captured: &str, exec_time: u64) -> (r: ExecOutcome)
        ensures
            opt_row(r.row) == exec_row(self@, command@, captured@, exec_time),
            r.status == self@.status,
            r.detail@ == self@.detail,
            opt_error(r.fatal) == self@.fatal,
    {
        let row = if self.fatal.is_some() {
            None
        } else if self.status == TestStatus::Completed || self.status == TestStatus::KernelTainted {
            self.row
        } else {
            let stdout = if self.detail.as_str().is_empty() {
                captured.to_owned()
            } else {
                self.detail.clone()
            };
            Some(CmdResult { command: command.to_owned(), returncode: -1, stdout, exec_time })
        };
        ExecOutcome { row, status: self.status, detail: self.detail, fatal: self.fatal }
    }
}

/// Outcome of the execution of a test: a result to read, or an error.
#[derive(Debug)]
pub struct ExecOutcome {
    /// What the command came to.
    pub row: Option<CmdResult>,
    /// Status of the execution.
    pub status: TestStatus,
    /// What is known of a kernel error.
    pub detail: String,
    /// Error that ended the execution.
    pub fatal: Option<KirkError>,
}

/// A test whose command ended by itself gives the result of that command; one
/// that timed out or met a kernel error gives return code -1.
pub proof fn result_of_execution(
    v: ExecView,
    command: Seq<char>,
    captured: Seq<char>,
    exec_time: u64,
)
    requires
        v.fatal is None,
    ensures
        ({
            let row = exec_row(v, command, captured, exec_time);
            if v.status == TestStatus::Completed || v.status == TestStatus::KernelTainted {
                row == v.row
            } else {
                row matches Some(r) && r.returncode == -1
            }
        }),
{
}

/// Whether an execution holds together: a command that has ended left its
/// result, and only a test that took too long is followed by a ping.
pub open spec fn exec_holds(v: ExecView) -> bool {
    &&& v.step == ExecStep::TaintAfter ==> v.row is Some
    &&& v.step == ExecStep::Ping ==> v.status == TestStatus::TestTimeout
    &&& v.step != ExecStep::Done ==> v.fatal is None
    &&& v.step == ExecStep::Done && v.fatal is None && (v.status == TestStatus::Completed
        || v.status == TestStatus::KernelTainted) ==> v.row is Some
    &&& v.fatal is Some ==> v.status == TestStatus::Completed
}

/// Executions hold together from their start to their end.
pub proof fn executions_hold(
    v: ExecView,
    flags: TaintView,
    outcome: RunOutcome,
    reply: PingOutcome,
)
    ensures
        exec_holds(exec_start()),
        exec_holds(v) && (v.step == ExecStep::TaintBefore || v.step == ExecStep::TaintAfter)
            ==> exec_holds(after_taint(v, flags)),
        exec_holds(v) && v.step == ExecStep::Run ==> exec_holds(after_run(v, outcome)),
        exec_holds(v) && v.step == ExecStep::Ping ==> exec_holds(after_ping(v, reply)),
{
}

/// An execution that has ended gives a result, which is recorded, or an error
/// that ends the schedule. A kernel error does both: none is ever passed over,
/// whenever it was met. Only a forced stop drops results, of tests that it
/// killed.
pub proof fn executions_are_not_lost(
    v: ExecView,
    s: TestSchedulerView,
    command: Seq<char>,
    captured: Seq<char>,
    exec_time: u64,
)
    requires
        exec_holds(v),
        v.step == ExecStep::Done,
    ensures
        (exec_row(v, command, captured, exec_time) is Some) == (v.fatal is None),
        status_error(v.status, v.detail) is Some ==> v.fatal is None,
        exec_row(v, command, captured, exec_time) matches Some(row) ==> s.stop_cnt <= 1
            ==> !is_dropped(s, row),
        v.status == TestStatus::KernelPanic || v.status == TestStatus::KernelTimeout ==> (exec_row(
            v,
            command,
            captured,
            exec_time,
        ) matches Some(row) && !is_dropped(s, row)),
{
}

/// A kernel panic that shows while the taint flags are read, before the
/// command or after it, gives the test a result with return code -1, an event
/// and the schedule its error.
pub proof fn panic_at_the_flags_is_kept(
    v: ExecView,
    partial: Seq<char>,
    command: Seq<char>,
    captured: Seq<char>,
    exec_time: u64,
)
    requires
        exec_holds(v),
        v.step == ExecStep::TaintBefore || v.step == ExecStep::TaintAfter,
    ensures
        ({
            let after = after_taint(v, TaintView::Failed(ErrorView::KernelPanic(partial)));
            &&& after.step == ExecStep::Done
            &&& exec_row(after, command, captured, exec_time) matches Some(row)
            &&& row.returncode == -1
            &&& status_error(after.status, after.detail) == Some(ErrorView::KernelPanic(partial))
            &&& status_event(after.status, after.detail) == Some(
                ("kernel_panic"@, None::<Seq<char>>),
            )
        }),
{
}

/// Error that a status ends the schedule with, if any.
pub open spec fn status_error(status: TestStatus, detail: Seq<char>) -> Option<ErrorView> {
    match status {
        TestStatus::KernelTainted => Some(ErrorView::KernelTainted(detail)),
        TestStatus::KernelPanic => Some(ErrorView::KernelPanic(detail)),
        TestStatus::KernelTimeout => Some(ErrorView::KernelTimeout("SUT is not responding"@)),
        _ => None,
    }
}

/// Event for a status, with its message, if any.
pub open spec fn status_event(status: TestStatus, detail: Seq<char>) -> Option<
    (Seq<char>, Option<Seq<char>>),
> {
    match status {
        TestStatus::KernelTainted => Some(("kernel_tainted"@, Some(detail))),
        TestStatus::KernelPanic => Some(("kernel_panic"@, None)),
        TestStatus::KernelTimeout => Some(("sut_not_responding"@, None)),
        _ => None,
    }
}

/// Tests in the order they run: those that run side by side, and those that
/// run one after the other when these have ended.
#[derive(Debug)]
pub struct Plan {
    /// Tests that run side by side.
    pub parallel: Vec<Test>,
    /// Tests that run one after the other.
    pub sequential: Vec<Test>,
}

/// Tests that run side by side.
pub open spec fn parallel_part(tests: Seq<TestView>, workers: usize) -> Seq<TestView> {
    if workers > 1 {
        tests.filter(|t: TestView| t.parallelizable)
    } else {
        Seq::empty()
    }
}

/// Tests that run one after the other.
pub open spec fn sequential_part(tests: Seq<TestView>, workers: usize) -> Seq<TestView> {
    if workers > 1 {
        tests.filter(|t: TestView| !t.parallelizable)
    } else {
        tests
    }
}

/// Every test runs, and no test runs twice: each is in one of the two parts.
/// With one worker nothing runs side by side, and a test that is not
/// parallelizable never does.
pub proof fn plan_covers_tests(tests: Seq<TestView>, workers: usize)
    ensures
        parallel_part(tests, workers).to_multiset().add(
            sequential_part(tests, workers).to_multiset(),
        ) == tests.to_multiset(),
        workers <= 1 ==> parallel_part(tests, workers).len() == 0,
        forall|i: int|
            0 <= i < parallel_part(tests, workers).len() ==> (#[trigger] parallel_part(
                tests,
                workers,
            )[i]).parallelizable,
    decreases tests.len(),
{
    broadcast use vstd::seq_lib::group_to_multiset_ensures;
    broadcast use vstd::multiset::group_multiset_axioms;

    let p = parallel_part(tests, workers);
    let s = sequential_part(tests, workers);
    if workers <= 1 {
        assert(p.to_multiset().add(s.to_multiset()) =~= tests.to_multiset());
    } else if tests.len() == 0 {
        reveal(Seq::filter);
        assert(p =~= tests);
        assert(s =~= tests);
        assert(p.to_multiset().add(s.to_multiset()) =~= tests.to_multiset());
    } else {
        let front = tests.drop_last();
        let last = tests.last();
        plan_covers_tests(front, workers);
        reveal(Seq::filter);
        let fp = parallel_part(front, workers);
        let fs = sequential_part(front, workers);
        assert(tests =~= front.push(last));
        assert(tests.to_multiset() =~= front.to_multiset().insert(last));
        if last.parallelizable {
            assert(p == fp.push(last));
            assert(s == fs);
            assert(p.to_multiset() =~= fp.to_multiset().insert(last));
        } else {
            assert(p == fp);
            assert(s == fs.push(last));
            assert(s.to_multiset() =~= fs.to_multiset().insert(last));
        }
        assert(p.to_multiset().add(s.to_multiset()) =~= tests.to_multiset());
        assert forall|i: int| 0 <= i < p.len() implies (#[trigger] p[i]).parallelizable by {
            if i < fp.len() {
                assert(fp[i].parallelizable);
            }
        }
    }
}

/// Where every test can run in parallel and there is more than one worker, all
/// of them run side by side, in their order.
pub proof fn parallel_tests_run_side_by_side(tests: Seq<TestView>, workers: usize)
    requires
        workers > 1,
        forall|i: int| 0 <= i < tests.len() ==> (#[trigger] tests[i]).parallelizable,
    ensures
        parallel_part(tests, workers) == tests,
        sequential_part(tests, workers) == Seq::<TestView>::empty(),
    decreases tests.len(),
{
    reveal(Seq::filter);
    if tests.len() > 0 {
        let front = tests.drop_last();
        assert forall|i: int| 0 <= i < front.len() implies (#[trigger] front[i]).parallelizable by {
            assert(front[i] == tests[i]);
        }
        parallel_tests_run_side_by_side(front, workers);
        assert(tests.last() == tests[tests.len() - 1]);
        assert(front.push(tests.last()) =~= tests);
    } else {
        assert(tests =~= Seq::<TestView>::empty());
    }
}

fn pick(tests: &[Test], parallelizable: bool) -> (r: Vec<Test>)
    ensures
        data::test_views(r@) == data::test_views(tests@).filter(
            |t: TestView| t.parallelizable == parallelizable,
        ),
{
    let ghost all = data::test_views(tests@);
    let ghost wanted = |t: TestView| t.parallelizable == parallelizable;
    let mut r: Vec<Test> = Vec::new();
    let mut i: usize = 0;
    proof {
        reveal(Seq::filter);
        assert(data::test_views(r@) =~= all.take(0).filter(wanted));
    }
    while i < tests.len()
        invariant
            i <= tests@.len(),
            all == data::test_views(tests@),
            wanted == |t: TestView| t.parallelizable == parallelizable,
            data::test_views(r@) == all.take(i as int).filter(wanted),
        decreases tests@.len() - i,
    {
        proof {
            reveal(Seq::filter);
            assert(all.take(i + 1).drop_last() =~= all.take(i as int));
            assert(all.take(i + 1).last() == tests@[i as int]@);
        }
        if tests[i].parallelizable() == parallelizable {
            let ghost before = r@;
            let t = tests[i].clone();
            r.push(t);
            assert(data::test_views(r@) =~= data::test_views(before).push(t@));
        }
        i = i + 1;
    }
    assert(all.take(all.len() as int) =~= all);
    r
}

/// What becomes of a finished execution.
#[derive(Debug)]
pub enum Verdict {
    /// No result is recorded; the schedule ends with the error, if any.
    Drop(Option<KirkError>),
    /// The result of the command is read.
    Read(CmdResult),
}

/// Test scheduler.
#[derive(Debug)]
pub struct TestScheduler {
    test_timeout: u64,
    max_workers: usize,
    results: Vec<TestResults>,
    stop_cnt: usize,
    stopped: bool,
}

/// What a scheduler holds.
#[verifier::ext_equal]
pub struct TestSchedulerView {
    /// Execution timeout; zero where there is none.
    pub test_timeout: u64,
    /// Number of tests that run side by side.
    pub max_workers: usize,
    /// Results, in the order the tests completed.
    pub results: Seq<TestResultsView>,
    /// Number of stops that are waited for.
    pub stop_cnt: usize,
    /// Whether the scheduler has been stopped.
    pub stopped: bool,
}

impl View for TestScheduler {
    type V = TestSchedulerView;

    closed spec fn view(&self) -> TestSchedulerView {
        TestSchedulerView {
            test_timeout: self.test_timeout,
            max_workers: self.max_workers,
            results: results::results_views(self.results@),
            stop_cnt: self.stop_cnt,
            stopped: self.stopped,
        }
    }
}

/// What becomes of a finished execution: an error ends the schedule, and a
/// test that was killed by a forced stop is dropped.
pub open spec fn is_dropped(s: TestSchedulerView, row: RowView) -> bool {
    row.returncode == KILLED_RETURNCODE && s.stop_cnt > 1
}

impl TestScheduler {
    /// Create a scheduler with at least one worker.
    pub fn new(test_timeout: u64, max_workers: usize) -> (r: Self)
        ensures
            r@ == (TestSchedulerView {
                test_timeout: timeout_in_force(test_timeout),
                max_workers: if max_workers == 0 {
                    1
                } else {
                    max_workers
                },
                results: Seq::empty(),
                stop_cnt: 0,
                stopped: false,
            }),
    {
        let r = TestScheduler {
            test_timeout: clamp_timeout(test_timeout),
            max_workers: if max_workers == 0 {
                1
            } else {
                max_workers
            },
            results: Vec::new(),
            stop_cnt: 0,
            stopped: false,
        };
        assert(r@.results =~= Seq::<TestResultsView>::empty());
        r
    }

    /// Execution timeout in seconds, as the bits of a double; zero where there
    /// is none.
    pub fn test_timeout(&self) -> (r: u64)
        ensures
            r == self@.test_timeout,
    {
        self.test_timeout
    }

    /// Number of tests that run side by side.
    pub fn max_workers(&self) -> (r: usize)
        ensures
            r == self@.max_workers,
    {
        self.max_workers
    }

    /// Results, in the order the tests completed.
    pub fn results(&self) -> (r: Vec<TestResults>)
        ensures
            results::results_views(r@) == self@.results,
    {
        results::copy_results(self.results.as_slice())
    }

    /// Whether the scheduler has been stopped.
    pub fn stopped(&self) -> (r: bool)
        ensures
            r == self@.stopped,
    {
        self.stopped
    }

    /// Number of stops that were asked for since the last one was done.
    pub fn stops(&self) -> (r: usize)
        ensures
            r == self@.stop_cnt,
    {
        self.stop_cnt
    }

    /// Ask for a stop. A first one lets the running test finish; another one
    /// forces the target down.
    pub fn stop(&mut self) -> (force: bool)
        requires
            old(self)@.stop_cnt < usize::MAX,
        ensures
            final(self)@ == (TestSchedulerView {
                stop_cnt: (old(self)@.stop_cnt + 1) as usize,
                ..old(self)@
            }),
            force == (final(self)@.stop_cnt > 1),
    {
        self.stop_cnt = self.stop_cnt + 1;
        self.stop_cnt > 1
    }

    /// The schedule has ended after a stop.
    pub fn stop_done(&mut self)
        ensures
            final(self)@ == (TestSchedulerView { stop_cnt: 0, stopped: true, ..old(self)@ }),
    {
        self.stop_cnt = 0;
        self.stopped = true;
    }

    /// Start a schedule: forgets the results of the last one, and decides
    /// which tests run side by side.
    pub fn schedule(&mut self, tests: &[Test]) -> (r: Result<Plan, KirkError>)
        ensures
            match r {
                Ok(plan) => {
                    &&& tests@.len() > 0
                    &&& data::test_views(plan.parallel@) == parallel_part(
                        data::test_views(tests@),
                        old(self)@.max_workers,
                    )
                    &&& data::test_views(plan.sequential@) == sequential_part(
                        data::test_views(tests@),
                        old(self)@.max_workers,
                    )
                    &&& final(self)@ == (TestSchedulerView { results: Seq::empty(), ..old(self)@ })
                },
                Err(e) => {
                    &&& tests@.len() == 0
                    &&& e@ == ErrorView::Scheduler("jobs list is empty"@)
                    &&& final(self)@ == old(self)@
                },
            },
    {
        if tests.len() == 0 {
            return Err(KirkError::Scheduler(text::owned("jobs list is empty")));
        }
        self.results = Vec::new();
        assert(self@.results =~= Seq::<TestResultsView>::empty());
        if self.max_workers > 1 {
            let parallel = pick(tests, true);
            let sequential = pick(tests, false);
            proof {
                let all = data::test_views(tests@);
                same_filter(
                    all,
                    |t: TestView| t.parallelizable == true,
                    |t: TestView| t.parallelizable,
                );
                same_filter(
                    all,
                    |t: TestView| t.parallelizable == false,
                    |t: TestView| !t.parallelizable,
                );
            }
            Ok(Plan { parallel, sequential })
        } else {
            let plan = Plan { parallel: Vec::new(), sequential: data::copy_slice(tests) };
            assert(data::test_views(plan.parallel@) =~= Seq::<TestView>::empty());
            Ok(plan)
        }
    }

    /// Whether a test may still start.
    pub fn may_start(&self) -> (r: bool)
        ensures
            r == (self@.stop_cnt == 0),
    {
        self.stop_cnt == 0
    }

    /// Decide what becomes of a finished execution.
    pub fn judge(&self, row: Option<CmdResult>, fatal: Option<KirkError>) -> (r: Verdict)
        ensures
            match opt_row(row) {
                None => r matches Verdict::Drop(e) && opt_error(e) == opt_error(fatal),
                Some(v) => if is_dropped(self@, v) {
                    r matches Verdict::Drop(None)
                } else {
                    r matches Verdict::Read(c) && row_view(c) == v
                },
            },
    {
        match row {
            None => Verdict::Drop(fatal),
            Some(row) => {
                if row.returncode == KILLED_RETURNCODE && self.stop_cnt > 1 {
                    Verdict::Drop(None)
                } else {
                    Verdict::Read(row)
                }
            },
        }
    }

    /// Record the results of a test. Gives the event to fire and the error
    /// that ends the schedule, if the status has any.
    pub fn record(&mut self, parsed: TestResults, status: TestStatus, detail: &str) -> (r: (
        Option<(&'static str, Option<String>)>,
        Option<KirkError>,
    ))
        ensures
            final(self)@ == (TestSchedulerView {
                results: old(self)@.results.push(parsed@),
                ..old(self)@
            }),
            match status_event(status, detail@) {
                Some((name, message)) => {
                    &&& r.0 matches Some((n, m))
                    &&& n@ == name
                    &&& text::opt_text(m) == message
                },
                None => r.0 is None,
            },
            opt_error(r.1) == status_error(status, detail@),
    {
        let ghost before = self.results@;
        self.results.push(parsed);
        assert(results::results_views(self.results@) =~= results::results_views(before).push(
            parsed@,
        ));
        match status {
            TestStatus::KernelTainted => (
                Some(("kernel_tainted", Some(detail.to_owned()))),
                Some(KirkError::KernelTainted(detail.to_owned())),
            ),
            TestStatus::KernelPanic => (
                Some(("kernel_panic", None)),
                Some(KirkError::KernelPanic(detail.to_owned())),
            ),
            TestStatus::KernelTimeout => (
                Some(("sut_not_responding", None)),
                Some(KirkError::KernelTimeout(text::owned("SUT is not responding"))),
            ),
            _ => (None, None),
        }
    }

    /// What a schedule comes to, given the first error of its tests. After a
    /// stop was asked for, errors are not reported.
    pub fn outcome(&self, error: Option<KirkError>) -> (r: Result<(), KirkError>)
        ensures
            match r {
                Ok(_) => error is None || self@.stop_cnt > 0,
                Err(e) => self@.stop_cnt == 0 && opt_error(error) == Some(e@),
            },
    {
        match error {
            Some(e) => {
                if self.stop_cnt == 0 {
                    Err(e)
                } else {
                    Ok(())
                }
            },
            None => Ok(()),
        }
    }
}

proof fn same_filter(s: Seq<TestView>, p: spec_fn(TestView) -> bool, q: spec_fn(TestView) -> bool)
    requires
        forall|t: TestView| #[trigger] p(t) == q(t),
    ensures
        s.filter(p) == s.filter(q),
    decreases s.len(),
{
    reveal(Seq::filter);
    if s.len() > 0 {
        same_filter(s.drop_last(), p, q);
        assert(p(s.last()) == q(s.last()));
    }
}

/// Error of a test whose task failed, for the reason given.
pub fn task_error(reason: &str) -> (e: KirkError)
    ensures
        e@ == ErrorView::Scheduler("test task failed: "@ + reason@),
{
    KirkError::Scheduler(text::cat2("test task failed: ", reason))
}

/// Whether the user of the target is root, given the reply to `id -u`. Only
/// root can write to the kernel log.
pub fn is_root(reply: &Option<CmdResult>) -> (r: bool)
    ensures
        r == (match *reply {
            Some(c) => c.stdout@ == "0\n"@,
            None => false,
        }),
{
    match reply {
        Some(c) => text::same(c.stdout.as_str(), "0\n"),
        None => false,
    }
}

/// Note in the kernel log that a test starts, or that it has ended with a
/// return code.
pub open spec fn kmsg_note(test: TestView, pid: u32, retcode: Option<i32>) -> Seq<char> {
    let head = "echo -n \"kirk["@ + text::decimal_text(pid as nat) + "]: "@ + test.name;
    match retcode {
        Some(code) => head + (": end (returncode: "@ + text::signed_text(code as int)
            + ")\" > /dev/kmsg"@),
        None => head + (": start (command: "@ + data::command_line(test) + ")\" > /dev/kmsg"@),
    }
}

/// Command that notes in the kernel log that a test starts or has ended.
pub fn kmsg_command(test: &Test, pid: u32, retcode: Option<i32>) -> (r: String)
    ensures
        r@ == kmsg_note(test@, pid, retcode),
{
    let number = text::decimal(pid as u64);
    let head = text::cat4("echo -n \"kirk[", number.as_str(), "]: ", test.name());
    let tail = match retcode {
        Some(code) => {
            let number = text::signed_decimal(code as i64);
            text::cat3(": end (returncode: ", number.as_str(), ")\" > /dev/kmsg")
        },
        None => {
            let command = test.full_command();
            text::cat3(": start (command: ", command.as_str(), ")\" > /dev/kmsg")
        },
    };
    text::cat2(head.as_str(), tail.as_str())
}

/// A whole execution, given what the target answers to each step that is
/// asked for.
pub open spec fn executed(
    before: TaintView,
    outcome: RunOutcome,
    reply: PingOutcome,
    after: TaintView,
) -> ExecView {
    let first = after_taint(exec_start(), before);
    if first.step != ExecStep::Run {
        first
    } else {
        let second = after_run(first, outcome);
        if second.step == ExecStep::Ping {
            after_ping(second, reply)
        } else if second.step == ExecStep::TaintAfter {
            after_taint(second, after)
        } else {
            second
        }
    }
}

/// What a test printed before it took too long is kept: every execution that
/// ends with a timeout and no error gives a result with return code -1 and
/// the very output that was captured.
pub proof fn output_before_a_timeout_is_kept(
    before: TaintView,
    outcome: RunOutcome,
    reply: PingOutcome,
    after: TaintView,
    command: Seq<char>,
    captured: Seq<char>,
    exec_time: u64,
)
    ensures
        ({
            let v = executed(before, outcome, reply, after);
            (v.status == TestStatus::TestTimeout || v.status == TestStatus::KernelTimeout)
                && v.fatal is None ==> {
                &&& exec_row(v, command, captured, exec_time) matches Some(row)
                &&& row.stdout == captured
                &&& row.returncode == -1
                &&& row.command == command
                &&& row.exec_time == exec_time
            }
        }),
{
}

/// A command that takes too long is a timeout of the test where the target
/// still answers, which ends no schedule, and a kernel timeout where it does
/// not, which does.
pub proof fn slow_commands_time_out(
    code: i64,
    messages: Seq<Seq<char>>,
    reply: PingOutcome,
    after: TaintView,
)
    ensures
        ({
            let v = executed(TaintView::Flags(code, messages), RunOutcome::Elapsed, reply, after);
            &&& v.step == ExecStep::Done
            &&& match reply {
                PingOutcome::Replied => {
                    &&& v.status == TestStatus::TestTimeout
                    &&& v.fatal is None
                    &&& status_error(v.status, v.detail) is None
                    &&& status_event(v.status, v.detail) is None
                },
                PingOutcome::Elapsed => {
                    &&& v.status == TestStatus::KernelTimeout
                    &&& v.fatal is None
                    &&& status_error(v.status, v.detail) matches Some(e)
                    &&& e is KernelTimeout
                    &&& status_event(v.status, v.detail) == Some(
                        ("sut_not_responding"@, None::<Seq<char>>),
                    )
                },
                PingOutcome::Failed(e) => if e@ is KernelTimeout {
                    &&& v.status == TestStatus::KernelTimeout
                    &&& v.fatal is None
                    &&& status_error(v.status, v.detail) matches Some(x)
                    &&& x is KernelTimeout
                } else {
                    v.fatal == Some(e@)
                },
            }
        }),
{
}

/// A command that ends gives the result that it came to, whatever else was
/// captured. The test is complete where the taint flags are as before, and
/// has tainted the kernel where they are not.
pub proof fn ended_commands_give_their_results(
    code: i64,
    messages: Seq<Seq<char>>,
    result: CmdResult,
    reply: PingOutcome,
    now: i64,
    told: Seq<Seq<char>>,
    command: Seq<char>,
    captured: Seq<char>,
    exec_time: u64,
)
    ensures
        ({
            let v = executed(
                TaintView::Flags(code, messages),
                RunOutcome::Ended(Ok(Some(result))),
                reply,
                TaintView::Flags(now, told),
            );
            &&& v.step == ExecStep::Done
            &&& v.fatal is None
            &&& exec_row(v, command, captured, exec_time) matches Some(row)
            &&& row.command == result.command@
            &&& row.returncode == result.returncode
            &&& row.stdout == result.stdout@
            &&& row.exec_time == result.exec_time
            &&& now == code ==> {
                &&& v.status == TestStatus::Completed
                &&& status_error(v.status, v.detail) is None
                &&& status_event(v.status, v.detail) is None
            }
            &&& now != code ==> {
                &&& v.status == TestStatus::KernelTainted
                &&& status_error(v.status, v.detail) == Some(
                    ErrorView::KernelTainted(text::joined(told, ", "@)),
                )
                &&& status_event(v.status, v.detail) == Some(
                    ("kernel_tainted"@, Some(text::joined(told, ", "@))),
                )
            }
        }),
{
}

/// A kernel panic of the command gives a result with return code -1 that
/// shows what was said of the panic, or else what was captured; it is told,
/// and ends the schedule.
pub proof fn panics_of_commands_are_told(
    code: i64,
    messages: Seq<Seq<char>>,
    error: KirkError,
    reply: PingOutcome,
    after: TaintView,
    command: Seq<char>,
    captured: Seq<char>,
    exec_time: u64,
)
    requires
        error@ is KernelPanic,
    ensures
        ({
            let v = executed(
                TaintView::Flags(code, messages),
                RunOutcome::Ended(Err(error)),
                reply,
                after,
            );
            &&& v.step == ExecStep::Done
            &&& exec_row(v, command, captured, exec_time) matches Some(row)
            &&& row.returncode == -1
            &&& row.command == command
            &&& row.exec_time == exec_time
            &&& error@->KernelPanic_0.len() > 0 ==> row.stdout == error@->KernelPanic_0
            &&& error@->KernelPanic_0.len() == 0 ==> row.stdout == captured
            &&& status_error(v.status, v.detail) == Some(error@)
            &&& status_event(v.status, v.detail) == Some(("kernel_panic"@, None::<Seq<char>>))
        }),
{
}

/// Any other error, of the taint flags or of the command, ends the execution
/// with that very error and without a result.
pub proof fn other_errors_are_handed_on(
    before: TaintView,
    outcome: RunOutcome,
    reply: PingOutcome,
    after: TaintView,
    command: Seq<char>,
    captured: Seq<char>,
    exec_time: u64,
)
    ensures
        ({
            let v = executed(before, outcome, reply, after);
            &&& before matches TaintView::Failed(e) ==> !(e is KernelPanic) ==> v.fatal == Some(e)
            &&& before is Flags ==> (outcome matches RunOutcome::Ended(Err(e)) ==> !(e@
                is KernelPanic) ==> v.fatal == Some(e@))
            &&& before is Flags ==> (outcome matches RunOutcome::Ended(Ok(None)) ==> v.fatal
                matches Some(e) && e is Scheduler)
            &&& before is Flags && (outcome matches RunOutcome::Ended(Ok(Some(_)))) ==> (after
                matches TaintView::Failed(e) ==> !(e is KernelPanic) ==> v.fatal == Some(e))
            &&& v.fatal is Some ==> exec_row(v, command, captured, exec_time) is None
        }),
{
}

/// Timeouts are positive and finite, or disabled: zero stands for none, and a
/// timeout that is in force is left as it is.
pub proof fn timeouts_are_clamped(bits: u64)
    ensures
        dict::rank(bits) > 0 && !dict::is_nan(bits) && bits != 0x7ff0_0000_0000_0000
            ==> timeout_in_force(bits) == bits,
        dict::rank(bits) <= 0 || dict::is_nan(bits) || bits == 0x7ff0_0000_0000_0000
            ==> timeout_in_force(bits) == 0,
{
}

/// The two parts of a plan keep the order of the tests: a test that stands
/// before another one in the same part stood before it in the list.
pub proof fn plan_keeps_order(front: Seq<TestView>, test: TestView, workers: usize)
    ensures
        ({
            let all = front.push(test);
            if workers > 1 && test.parallelizable {
                &&& parallel_part(all, workers) == parallel_part(front, workers).push(test)
                &&& sequential_part(all, workers) == sequential_part(front, workers)
            } else {
                &&& parallel_part(all, workers) == parallel_part(front, workers)
                &&& sequential_part(all, workers) == sequential_part(front, workers).push(test)
            }
        }),
{
    reveal(Seq::filter);
    let all = front.push(test);
    assert(all.drop_last() =~= front);
}

/// The flags that are read first are kept for comparison; a test whose flags
/// differ afterwards tainted the kernel, and the new ones are told.
pub proof fn taint_is_compared(v: ExecView, code: i64, messages: Seq<Seq<char>>)
    ensures
        v.step is TaintBefore ==> {
            let w = after_taint(v, TaintView::Flags(code, messages));
            w.step is Run && w.before == code && w.status == v.status && w.row == v.row
        },
        v.step is TaintAfter && code == v.before ==> {
            let w = after_taint(v, TaintView::Flags(code, messages));
            w.step is Done && w.status == v.status && w.row == v.row && w.detail == v.detail
        },
        v.step is TaintAfter && code != v.before ==> {
            let w = after_taint(v, TaintView::Flags(code, messages));
            w.step is Done && w.status is KernelTainted && w.row == v.row && w.detail
                == text::joined(messages, ", "@)
        },
{
}

/// A kernel that panicked, is tainted or does not answer ends the schedule with
/// its error and is announced; nothing else does.
pub proof fn kernel_statuses_end_the_schedule(status: TestStatus, detail: Seq<char>)
    ensures
        status_error(status, detail) is Some <==> status is KernelPanic || status is KernelTainted
            || status is KernelTimeout,
        status_event(status, detail) is Some <==> status_error(status, detail) is Some,
        status is KernelPanic ==> status_error(status, detail) == Some(
            ErrorView::KernelPanic(detail),
        ) && status_event(status, detail) == Some(
            ("kernel_panic"@, None::<Seq<char>>),
        ),
        status is KernelTainted ==> status_error(status, detail) == Some(
            ErrorView::KernelTainted(detail),
        ) && status_event(status, detail) == Some(("kernel_tainted"@, Some(detail))),
        status is KernelTimeout ==> status_error(status, detail) == Some(
            ErrorView::KernelTimeout("SUT is not responding"@),
        ) && status_event(status, detail) == Some(
            ("sut_not_responding"@, None::<Seq<char>>),
        ),
{
}

/// A result is dropped only for a test that was killed, and only where the
/// schedule was stopped more than once.
pub proof fn killed_tests_are_dropped(s: TestSchedulerView, row: RowView)
    ensures
        is_dropped(s, row) ==> s.stop_cnt >= 2,
        s.stop_cnt == 0 || row.returncode >= 0 ==> !is_dropped(s, row),
        row.returncode == KILLED_RETURNCODE && s.stop_cnt == 2 ==> is_dropped(s, row),
{
}

/// The kernel log names the runner, the test, and the command that starts or
/// the code that it ended with.
pub proof fn notes_name_the_test(t: TestView, pid: u32, code: i32)
    ensures
        kmsg_note(t, pid, None) == "echo -n \"kirk["@ + text::decimal_text(pid as nat) + "]: "@
            + t.name + ": start (command: "@ + data::command_line(t) + ")\" > /dev/kmsg"@,
        kmsg_note(t, pid, Some(code)) == "echo -n \"kirk["@ + text::decimal_text(pid as nat)
            + "]: "@ + t.name + ": end (returncode: "@ + text::signed_text(code as int)
            + ")\" > /dev/kmsg"@,
{
    let head = "echo -n \"kirk["@ + text::decimal_text(pid as nat) + "]: "@ + t.name;
    assert(kmsg_note(t, pid, None) =~= head + ": start (command: "@ + data::command_line(t)
        + ")\" > /dev/kmsg"@);
    assert(kmsg_note(t, pid, Some(code)) =~= head + ": end (returncode: "@ + text::signed_text(
        code as int,
    ) + ")\" > /dev/kmsg"@);
}

} // verus!
