use kirk::com::CmdResult;
use kirk::data::{Suite, Test};
use kirk::errors::KirkError;
use kirk::ltp::framework::LtpFramework;
use kirk::results::{ResultStatus, SuiteResults, TestResults};
use kirk::scheduler::drive::{Drive, DriveStep};
use kirk::scheduler::suite_sched::{
    needs_restart, RoundEnd, SuiteLoop, SuiteScheduler, SuiteStep,
};
use kirk::scheduler::test_sched::{
    clamp_timeout, is_root, kmsg_command, task_error, ExecOutcome, ExecStep, ExecTest, PingOutcome,
    RunOutcome, StdoutBuffer, TestScheduler, TestStatus, Verdict, KILLED_RETURNCODE,
};
use kirk::textmap::TextMap;

fn bits(x: f64) -> u64 {
    x.to_bits()
}

#[test]
fn constructor_clamps_timeout_and_workers() {
    let scheduler = TestScheduler::new(bits(-5.0), 0);
    assert!((f64::from_bits(scheduler.test_timeout()) - 0.0).abs() < f64::EPSILON);
    assert_eq!(scheduler.max_workers(), 1);
}

#[test]
fn constructor_keeps_valid_values() {
    let scheduler = TestScheduler::new(bits(30.0), 4);
    assert!((f64::from_bits(scheduler.test_timeout()) - 30.0).abs() < f64::EPSILON);
    assert_eq!(scheduler.max_workers(), 4);
}

#[test]
fn constructor_rejects_non_finite_timeout() {
    let scheduler = TestScheduler::new(bits(f64::NAN), 2);
    assert!((f64::from_bits(scheduler.test_timeout()) - 0.0).abs() < f64::EPSILON);
}

#[test]
fn timeouts_are_clamped_as_doubles_are() {
    for value in [0.0, -0.0, 0.5, 3600.0, -1.0, f64::MAX, f64::INFINITY, f64::NEG_INFINITY, f64::NAN] {
        let expected = if value.is_finite() { value.max(0.0) } else { 0.0 };
        assert_eq!(f64::from_bits(clamp_timeout(bits(value))), expected, "{value}");
    }
}

#[test]
fn test_sched_schedule_rejects_empty_jobs() {
    let mut scheduler = TestScheduler::new(bits(0.0), 1);
    let error = scheduler.schedule(&[]).unwrap_err();
    assert!(matches!(error, KirkError::Scheduler(_)));
}

#[test]
fn status_variants_are_distinct() {
    for pair in [
        (TestStatus::Completed, TestStatus::TestTimeout),
        (TestStatus::KernelPanic, TestStatus::KernelTainted),
        (TestStatus::KernelTimeout, TestStatus::Completed),
    ] {
        assert_ne!(pair.0, pair.1);
    }
}

#[test]
fn result_status_codes_match_upstream() {
    assert_eq!(ResultStatus::PASS, 0);
    assert_eq!(ResultStatus::CONF, 32);
}

#[test]
fn constructor_clamps_suite_timeout() {
    let scheduler = SuiteScheduler::new(bits(-1.0), bits(-2.0), 0);
    assert!((f64::from_bits(scheduler.suite_timeout()) - 0.0).abs() < f64::EPSILON);
    let inner = scheduler.test_scheduler();
    assert!((f64::from_bits(inner.test_timeout()) - 0.0).abs() < f64::EPSILON);
    assert_eq!(inner.max_workers(), 1);
}

/// How a target behaves.
#[derive(Clone, Copy, PartialEq)]
enum Mode {
    Normal,
    Tainting,
    Hanging,
    Slow,
    /// The kernel panics once, while its flags are read before a command.
    PanicsAtFlags,
}

struct FakeSut {
    mode: Mode,
    taint_calls: i64,
    restarts: usize,
}

impl FakeSut {
    fn new(mode: Mode) -> Self {
        FakeSut { mode, taint_calls: 0, restarts: 0 }
    }

    fn get_tainted_info(&mut self) -> Result<(i64, Vec<String>), KirkError> {
        if self.mode == Mode::PanicsAtFlags && self.taint_calls == 0 {
            self.taint_calls += 1;
            return Err(KirkError::KernelPanic(String::from("panic at the flags")));
        }
        if self.mode != Mode::Tainting || self.taint_calls == 0 {
            if self.mode == Mode::Tainting {
                self.taint_calls += 1;
            }
            return Ok((0, vec![String::new()]));
        }
        self.taint_calls += 1;
        Ok((
            self.taint_calls - 1,
            vec![String::from("proprietary module was loaded")],
        ))
    }

    fn run_command(&mut self, command: &str, capture: &mut StdoutBuffer) -> RunOutcome {
        if self.mode == Mode::Hanging || self.mode == Mode::Slow {
            return RunOutcome::Elapsed;
        }
        if command.contains("Kernel panic") {
            capture.push("Kernel panic\n");
            return RunOutcome::Ended(Err(KirkError::KernelPanic(String::from("Kernel panic\n"))));
        }
        let stdout = command
            .strip_prefix("echo ")
            .unwrap_or("")
            .split_whitespace()
            .filter(|word| *word != "-n")
            .collect::<Vec<_>>()
            .join(" ");
        RunOutcome::Ended(Ok(Some(CmdResult {
            command: command.to_owned(),
            returncode: 0,
            stdout,
            exec_time: bits(0.25),
        })))
    }

    fn ping(&self) -> PingOutcome {
        if self.mode == Mode::Hanging {
            PingOutcome::Failed(KirkError::KernelTimeout(String::from("SUT is not responding")))
        } else {
            PingOutcome::Replied
        }
    }

    fn get_info(&self) -> TextMap {
        let mut info = TextMap::new();
        for (key, value) in [
            ("distro", "openSUSE"),
            ("distro_ver", "15.3"),
            ("kernel", "5.10"),
            ("cmdline", "ima_policy=tcb"),
            ("arch", "x86_64"),
            ("cpu", "x86_64"),
            ("swap", "0"),
            ("ram", "1M"),
        ] {
            info.insert(key, value);
        }
        info
    }
}

fn execute(sut: &mut FakeSut, test: &Test) -> ExecOutcome {
    let mut exec = ExecTest::new();
    let mut capture = StdoutBuffer::default();
    let command = test.full_command();
    loop {
        match exec.step() {
            ExecStep::TaintBefore | ExecStep::TaintAfter => {
                exec.tainted(sut.get_tainted_info());
            }
            ExecStep::Run => exec.ran(sut.run_command(&command, &mut capture)),
            ExecStep::Ping => exec.pinged(sut.ping()),
            ExecStep::Done => break,
        }
    }
    exec.finish(&command, &capture.snapshot(), bits(0.1))
}

fn run_one(sched: &mut TestScheduler, sut: &mut FakeSut, test: &Test) -> Option<KirkError> {
    let done = execute(sut, test);
    match sched.judge(done.row, done.fatal) {
        Verdict::Drop(error) => error,
        Verdict::Read(row) => {
            let framework = LtpFramework::with_root("/ltp", 0, &TextMap::new(), None);
            let parsed = framework
                .read_result(test.clone(), &row.stdout, row.returncode, row.exec_time)
                .unwrap();
            sched.record(parsed, done.status, &done.detail).1
        }
    }
}

/// Run `tests`, each to its end as soon as no other may start; `stop_after`
/// asks for a stop after so many tests. Gives the most tests that ran at the
/// same time, too.
fn run_all(
    sched: &mut TestScheduler,
    sut: &mut FakeSut,
    tests: &[Test],
    stop_after: Option<usize>,
) -> (Result<(), KirkError>, usize) {
    let plan = match sched.schedule(tests) {
        Ok(plan) => plan,
        Err(e) => return (Err(e), 0),
    };
    let mut drive = Drive::new(plan, sched.max_workers());
    let mut running: Vec<Test> = Vec::new();
    let (mut count, mut most) = (0, 0);
    loop {
        match drive.step(!sched.may_start()) {
            DriveStep::Start(test) => {
                running.push(test);
                assert_eq!(drive.running(), running.len());
                most = most.max(running.len());
            }
            DriveStep::Wait => {
                let test = running.remove(0);
                let error = run_one(sched, sut, &test);
                drive.finished(error);
                count += 1;
                if Some(count) == stop_after {
                    assert!(!sched.stop());
                }
            }
            DriveStep::End => break,
        }
    }
    (sched.outcome(drive.error()), most)
}

fn echo_test(index: usize) -> Test {
    Test::new(&format!("test{index}"), "echo")
        .expect("test name and command are non-empty")
        .with_args(vec![String::from("-n"), String::from("ciao")])
        .with_parallelizable(true)
}

fn sleep_test(index: usize, secs: &str) -> Test {
    Test::new(&format!("test{index}"), "sleep")
        .expect("test name and command are non-empty")
        .with_args(vec![String::from(secs)])
        .with_parallelizable(true)
}

fn panic_test(index: usize) -> Test {
    let mut panic = Test::new(&format!("test{index}"), "echo")
        .expect("valid test")
        .with_args(vec![String::from("Kernel"), String::from("panic")]);
    panic.force_parallel();
    panic
}

fn scheduler(workers: usize) -> TestScheduler {
    TestScheduler::new(bits(3600.0), workers)
}

#[test]
fn schedule_runs_all_tests() {
    for workers in [1, 10] {
        let tests: Vec<Test> = (0..10).map(echo_test).collect();
        let mut sched = scheduler(workers);
        run_all(&mut sched, &mut FakeSut::new(Mode::Normal), &tests, None)
            .0
            .expect("schedule succeeds");
        let mut results = sched.results();
        assert_eq!(results.len(), tests.len());
        results.sort_by(|left, right| left.test().name().cmp(right.test().name()));
        for (index, result) in results.iter().enumerate() {
            assert_eq!(result.test().name(), format!("test{index}"));
            assert_eq!(result.passed(), 1);
            assert_eq!(result.failed(), 0);
            assert_eq!(result.broken(), 0);
            assert_eq!(result.skipped(), 0);
            assert_eq!(result.warnings(), 0);
            let exec_time = f64::from_bits(result.exec_time());
            assert!(exec_time > 0.0 && exec_time < 1.0);
            assert_eq!(result.return_code(), 0);
            assert_eq!(result.stdout(), "ciao");
        }
    }
}

#[test]
fn test_scheduler_schedule_rejects_empty_jobs() {
    let mut sched = scheduler(1);
    let error = sched.schedule(&[]).unwrap_err();
    assert!(matches!(error, KirkError::Scheduler(_)));
}

#[test]
fn sequential_mode_preserves_order() {
    let tests: Vec<Test> = (0..10).map(echo_test).collect();
    let mut sched = scheduler(1);
    run_all(&mut sched, &mut FakeSut::new(Mode::Normal), &tests, None)
        .0
        .expect("schedule succeeds");
    let results = sched.results();
    assert_eq!(results.len(), 10);
    for (index, result) in results.iter().enumerate() {
        assert_eq!(result.test().name(), format!("test{index}"));
    }
}

#[test]
fn parallel_tests_come_first() {
    let tests = vec![
        Test::new("a", "echo").unwrap(),
        echo_test(1),
        Test::new("b", "echo").unwrap(),
        echo_test(2),
    ];
    let names = |v: &[Test]| v.iter().map(|t| t.name().to_owned()).collect::<Vec<_>>();
    let plan = scheduler(3).schedule(&tests).unwrap();
    assert_eq!(names(&plan.parallel), ["test1", "test2"]);
    assert_eq!(names(&plan.sequential), ["a", "b"]);
    let plan = scheduler(1).schedule(&tests).unwrap();
    assert!(plan.parallel.is_empty());
    assert_eq!(names(&plan.sequential), ["a", "test1", "b", "test2"]);
}

#[test]
fn test_scheduler_schedule_stop_cuts_execution_short() {
    for workers in [1, 10] {
        let count = workers * 2;
        let tests: Vec<Test> = (0..count).map(|index| sleep_test(index, "0.1")).collect();
        let mut sched = scheduler(workers);
        run_all(&mut sched, &mut FakeSut::new(Mode::Normal), &tests, Some(1))
            .0
            .expect("stopped schedule succeeds");
        assert!(!sched.stopped());
        sched.stop_done();
        assert!(sched.stopped());
        assert!(sched.results().len() < count);
    }
}

#[test]
fn schedule_raises_on_kernel_tainted() {
    for workers in [1, 10] {
        let tests: Vec<Test> = (0..10).map(echo_test).collect();
        let mut sched = scheduler(workers);
        let error = run_all(&mut sched, &mut FakeSut::new(Mode::Tainting), &tests, None)
            .0
            .unwrap_err();
        assert!(matches!(error, KirkError::KernelTainted(_)));
        assert!(!sched.results().is_empty());
    }
}

#[test]
fn schedule_raises_on_kernel_panic() {
    let mut tests = vec![panic_test(0)];
    tests.extend((1..10).map(|index| sleep_test(index, "0.2")));
    let mut sched = scheduler(1);
    let error = run_all(&mut sched, &mut FakeSut::new(Mode::Normal), &tests, None)
        .0
        .unwrap_err();
    assert!(matches!(error, KirkError::KernelPanic(_)));

    // Sequential mode aborts on the first error: only the panic row exists.
    let results = sched.results();
    assert_eq!(results.len(), 1);
    let result = &results[0];
    assert_eq!(result.test().name(), "test0");
    assert_eq!(result.passed(), 0);
    assert_eq!(result.failed(), 0);
    assert_eq!(result.broken(), 1);
    assert_eq!(result.skipped(), 0);
    assert_eq!(result.warnings(), 0);
    assert_eq!(result.return_code(), -1);
    assert_eq!(result.stdout(), "Kernel panic\n");
}

#[test]
fn schedule_drains_parallel_tasks_on_kernel_panic() {
    let mut tests = vec![panic_test(0)];
    tests.extend((1..10).map(|index| sleep_test(index, "0.2")));
    let mut sched = scheduler(10);
    let error = run_all(&mut sched, &mut FakeSut::new(Mode::Normal), &tests, None)
        .0
        .unwrap_err();
    assert!(matches!(error, KirkError::KernelPanic(_)));
    let results = sched.results();
    assert_eq!(results.len(), 10);
    let panicked = results
        .iter()
        .find(|result| result.test().name() == "test0")
        .expect("panic row is recorded");
    assert_eq!(panicked.broken(), 1);
    assert_eq!(panicked.return_code(), -1);
}

#[test]
fn schedule_raises_on_kernel_timeout() {
    for workers in [1, 10] {
        let tests: Vec<Test> = (0..10).map(|index| sleep_test(index, "0.01")).collect();
        let mut sched = TestScheduler::new(bits(0.02), workers);
        let error = run_all(&mut sched, &mut FakeSut::new(Mode::Hanging), &tests, None)
            .0
            .unwrap_err();
        assert!(matches!(error, KirkError::KernelTimeout(_)));
    }
}

#[test]
fn schedule_records_test_timeout_without_raising() {
    for workers in [1, 10] {
        let tests: Vec<Test> = (0..10).map(|index| sleep_test(index, "0.05")).collect();
        let mut sched = TestScheduler::new(bits(0.02), workers);
        run_all(&mut sched, &mut FakeSut::new(Mode::Slow), &tests, None)
            .0
            .expect("schedule succeeds");
        let results = sched.results();
        assert_eq!(results.len(), tests.len());
        for result in &results {
            assert!(result.test().name().starts_with("test"));
            assert_eq!(result.passed(), 0);
            assert_eq!(result.failed(), 0);
            assert_eq!(result.broken(), 1);
            assert_eq!(result.skipped(), 0);
            assert_eq!(result.warnings(), 0);
            let exec_time = f64::from_bits(result.exec_time());
            assert!(exec_time > 0.0 && exec_time < 0.4);
            assert_eq!(result.return_code(), -1);
            assert_eq!(result.stdout(), "");
        }
    }
}

#[test]
fn killed_tests_of_a_forced_stop_are_dropped() {
    let mut sched = scheduler(1);
    let row = CmdResult {
        command: "sleep".to_owned(),
        returncode: KILLED_RETURNCODE,
        stdout: String::new(),
        exec_time: 0,
    };
    assert!(matches!(sched.judge(Some(row.clone()), None), Verdict::Read(_)));
    assert_eq!(sched.stops(), 0);
    assert!(!sched.stop());
    assert!(matches!(sched.judge(Some(row.clone()), None), Verdict::Read(_)));
    assert!(sched.stop());
    assert_eq!(sched.stops(), 2);
    assert!(matches!(sched.judge(Some(row), None), Verdict::Drop(None)));
    assert!(!sched.may_start());
}

#[test]
fn faults_of_an_execution_are_kept() {
    let mut exec = ExecTest::new();
    exec.tainted(Err(KirkError::Sut("gone".to_owned())));
    let done = exec.finish("ls", "", 0);
    assert!(done.row.is_none());
    assert!(matches!(done.fatal, Some(KirkError::Sut(_))));

    let mut exec = ExecTest::new();
    exec.tainted(Ok((0, Vec::new())));
    exec.ran(RunOutcome::Ended(Ok(None)));
    let done = exec.finish("ls", "", 0);
    assert!(matches!(done.fatal, Some(KirkError::Scheduler(_))));
}

#[test]
fn panic_before_the_command_is_kept() {
    let mut exec = ExecTest::new();
    exec.tainted(Err(KirkError::KernelPanic("gone".to_owned())));
    assert!(matches!(exec.step(), ExecStep::Done));
    let done = exec.finish("ls -l", "", bits(0.5));
    assert_eq!(done.status, TestStatus::KernelPanic);
    assert!(done.fatal.is_none());
    let row = done.row.expect("panic row");
    assert_eq!((row.command.as_str(), row.returncode), ("ls -l", -1));

    let tests: Vec<Test> = (0..3).map(echo_test).collect();
    let mut sched = scheduler(1);
    let error = run_all(&mut sched, &mut FakeSut::new(Mode::PanicsAtFlags), &tests, None)
        .0
        .unwrap_err();
    assert!(matches!(error, KirkError::KernelPanic(_)));
    let results = sched.results();
    assert_eq!(results.len(), 1);
    assert_eq!(results[0].test().name(), "test0");
    assert_eq!((results[0].broken(), results[0].return_code()), (1, -1));
}

#[test]
fn suite_restarts_after_a_panic_before_the_command() {
    let (results, restarts) = scheduled(1, Mode::PanicsAtFlags, (0..3).map(echo_test).collect());
    assert_eq!(restarts, 1);
    let rows: Vec<(&str, i32)> = results[0]
        .tests_results()
        .iter()
        .map(|row| (row.test().name(), row.return_code()))
        .collect();
    assert_eq!(rows, [("test0", -1), ("test1", 0), ("test2", 0)]);
}

#[test]
fn first_error_is_kept() {
    let plan = scheduler(2).schedule(&[echo_test(0), echo_test(1), echo_test(2)]).unwrap();
    let mut drive = Drive::new(plan, 2);
    assert!(matches!(drive.step(false), DriveStep::Start(_)));
    assert!(matches!(drive.step(false), DriveStep::Start(_)));
    assert!(matches!(drive.step(false), DriveStep::Wait));
    drive.finished(None);
    assert!(matches!(drive.step(false), DriveStep::Start(_)));
    drive.finished(Some(task_error("first")));
    drive.finished(Some(task_error("second")));
    assert!(matches!(drive.step(false), DriveStep::End));
    assert!(drive.error().unwrap().to_string().contains("first"));
}

#[test]
fn test_scheduler_max_workers_bounds_concurrency() {
    let mut sched = scheduler(3);
    let tests: Vec<Test> = (0..9).map(|index| sleep_test(index, "0.02")).collect();
    let (outcome, most) = run_all(&mut sched, &mut FakeSut::new(Mode::Normal), &tests, None);
    outcome.expect("schedule succeeds");
    assert_eq!(sched.results().len(), 9);
    assert!(most > 1 && most <= 3);
}

#[test]
fn single_worker_runs_one_at_a_time() {
    let mut sched = scheduler(1);
    let tests: Vec<Test> = (0..4).map(|index| sleep_test(index, "0.05")).collect();
    let (outcome, most) = run_all(&mut sched, &mut FakeSut::new(Mode::Normal), &tests, None);
    outcome.expect("schedule succeeds");
    assert_eq!(most, 1);
}

#[test]
fn kernel_log_gets_a_line() {
    let test = echo_test(3);
    let start = kmsg_command(&test, 77, None);
    assert!(start.contains("test3") && start.contains("77"));
    let end = kmsg_command(&test, 77, Some(2));
    assert!(end.contains("returncode: 2"));
    let root = |stdout: &str, returncode: i32| {
        is_root(&Some(CmdResult {
            command: "id -u".to_owned(),
            returncode,
            stdout: stdout.to_owned(),
            exec_time: 0,
        }))
    };
    assert!(root("0\n", 0));
    assert!(!root("1\n", 0));
    assert!(!is_root(&None));
}

fn suite(name: &str, tests: Vec<Test>) -> Suite {
    Suite::new(name, tests)
}

/// Run `suites`; the target restarts after a kernel error.
fn run_suites(
    sched: &mut SuiteScheduler,
    sut: &mut FakeSut,
    suites: &[Suite],
    suite_expires: bool,
    stop_after: Option<usize>,
) -> Result<(), KirkError> {
    sched.schedule(suites)?;
    for suite in suites {
        let mut rounds = SuiteLoop::new(suite);
        loop {
            match rounds.step(sched.stopping()) {
                SuiteStep::Round if suite_expires => rounds.round_ended(RoundEnd::Elapsed),
                SuiteStep::Round => {
                    let tests = rounds.left().to_vec();
                    let inner = sched.test_scheduler_mut();
                    let (outcome, _) = run_all(inner, sut, &tests, stop_after);
                    if stop_after.is_some() {
                        sched.stop();
                    }
                    rounds.round_ended(RoundEnd::Ended(outcome));
                }
                SuiteStep::Restart => {
                    sut.restarts += 1;
                    rounds.restarted(Ok(()));
                }
                SuiteStep::Collect => rounds.absorb(sched.test_scheduler().results()),
                SuiteStep::Done => break,
            }
        }
        let (results, outcome) = rounds.completed(&sut.get_info());
        sched.record(results);
        outcome?;
    }
    Ok(())
}

fn suite_scheduler(workers: usize) -> SuiteScheduler {
    SuiteScheduler::new(bits(3600.0), bits(3600.0), workers)
}

fn scheduled(
    workers: usize,
    mode: Mode,
    tests: Vec<Test>,
) -> (Vec<SuiteResults>, usize) {
    let mut sched = suite_scheduler(workers);
    let mut sut = FakeSut::new(mode);
    run_suites(&mut sched, &mut sut, &[suite("suite01", tests)], false, None)
        .expect("schedule succeeds");
    (sched.results(), sut.restarts)
}

#[test]
fn schedule_runs_all_suites() {
    for workers in [1, 10] {
        let (results, _) = scheduled(workers, Mode::Normal, (0..10).map(echo_test).collect());
        assert_eq!(results.len(), 1);
        assert_eq!(results[0].tests_results().len(), 10);
        assert_eq!(results[0].distro(), Some("openSUSE"));
    }
}

#[test]
fn test_suite_scheduler_schedule_rejects_empty_jobs() {
    let mut sched = suite_scheduler(1);
    let error = sched.schedule(&[]).unwrap_err();
    assert!(matches!(error, KirkError::Scheduler(_)));
}

#[test]
fn test_suite_scheduler_schedule_stop_cuts_execution_short() {
    for workers in [1, 10] {
        let count = workers * 2;
        let tests: Vec<Test> = (0..count).map(|index| sleep_test(index, "1.0")).collect();
        let mut sched = suite_scheduler(workers);
        let mut sut = FakeSut::new(Mode::Normal);
        let suites = [suite("suite01", tests)];
        run_suites(&mut sched, &mut sut, &suites, false, Some(1))
            .expect("stopped schedule succeeds");
        sched.stop_done();
        assert!(sched.stopped());
        let results = sched.results();
        assert_eq!(results.len(), 1);
        assert!(!results[0].tests_results().is_empty());
        assert!(results[0].tests_results().len() < count);
    }
}

#[test]
fn schedule_reboots_on_kernel_tainted() {
    let (results, restarts) = scheduled(1, Mode::Tainting, (0..2).map(echo_test).collect());
    // Sequential: each test taints in turn, rebooting after each one.
    assert_eq!(restarts, 2);
    assert_eq!(results.len(), 1);
    assert_eq!(results[0].tests_results().len(), 2);
}

#[test]
fn schedule_reboots_on_kernel_tainted_parallel() {
    let (results, restarts) = scheduled(10, Mode::Tainting, (0..2).map(echo_test).collect());
    assert!(restarts >= 1);
    assert_eq!(results.len(), 1);
    assert!(results[0].tests_results().len() >= 2);
}

#[test]
fn schedule_reboots_on_kernel_panic() {
    for workers in [1, 10] {
        let mut tests: Vec<Test> = (0..9).map(echo_test).collect();
        tests.push(panic_test(9));
        let (results, restarts) = scheduled(workers, Mode::Normal, tests);
        assert_eq!(restarts, 1);
        assert_eq!(results.len(), 1);
        assert!(results[0].tests_results().len() >= 10);
    }
}

#[test]
fn schedule_reboots_on_kernel_timeout() {
    for workers in [1, 10] {
        let tests: Vec<Test> = (0..10).map(|index| sleep_test(index, "0.1")).collect();
        let (results, restarts) = scheduled(workers, Mode::Hanging, tests);
        assert!(restarts > 0);
        assert_eq!(results.len(), 1);
        assert_eq!(results[0].tests_results().len(), 10);
    }
}

#[test]
fn schedule_marks_leftover_tests_on_suite_timeout() {
    for workers in [1, 10] {
        let tests: Vec<Test> = (0..10).map(|index| sleep_test(index, "0.5")).collect();
        let mut sched = SuiteScheduler::new(bits(0.1), bits(3600.0), workers);
        let mut sut = FakeSut::new(Mode::Normal);
        run_suites(&mut sched, &mut sut, &[suite("suite01", tests)], true, None)
            .expect("suite timeout fills leftovers");
        let results = sched.results();
        assert_eq!(results.len(), 1);
        assert_eq!(results[0].tests_results().len(), 10);
        for (index, result) in results[0].tests_results().iter().enumerate() {
            assert_eq!(result.test().name(), format!("test{index}"));
            assert_eq!(result.passed(), 0);
            assert_eq!(result.failed(), 0);
            assert_eq!(result.broken(), 0);
            assert_eq!(result.skipped(), 1);
            assert_eq!(result.warnings(), 0);
            assert!((f64::from_bits(result.exec_time()) - 0.0).abs() < f64::EPSILON);
            assert_eq!(result.return_code(), 32);
            assert_eq!(result.stdout(), "");
            assert_eq!(result.status(), ResultStatus::CONF);
        }
    }
}

#[test]
fn partial_round_keeps_what_ran() {
    let tests: Vec<Test> = (0..3).map(echo_test).collect();
    let mut rounds = SuiteLoop::new(&suite("s", tests.clone()));
    assert_eq!(rounds.step(true), SuiteStep::Done);
    rounds.round_ended(RoundEnd::Ended(Ok(())));
    rounds.absorb(vec![TestResults::new(tests[1].clone()).with_passed(1)]);
    let left: Vec<&str> = rounds.left().iter().map(|t| t.name()).collect();
    assert_eq!(left, ["test0", "test2"]);
    rounds.round_ended(RoundEnd::Elapsed);
    rounds.absorb(Vec::new());
    assert_eq!(rounds.step(false), SuiteStep::Done);
    let (results, outcome) = rounds.completed(&TextMap::new());
    assert!(outcome.is_ok());
    let names: Vec<&str> = results.tests_results().iter().map(|r| r.test().name()).collect();
    assert_eq!(names, ["test1", "test0", "test2"]);
    assert_eq!((results.passed(), results.skipped()), (1, 2));
    assert_eq!(results.distro(), None);
}

#[test]
fn errors_end_a_suite() {
    let one = suite("s", vec![echo_test(0)]);
    let mut rounds = SuiteLoop::new(&one);
    rounds.round_ended(RoundEnd::Ended(Err(KirkError::Communication("gone".to_owned()))));
    assert_eq!(rounds.step(false), SuiteStep::Done);
    let (results, outcome) = rounds.completed(&TextMap::new());
    assert!(results.tests_results().is_empty());
    assert!(matches!(outcome, Err(KirkError::Communication(_))));

    let mut rounds = SuiteLoop::new(&one);
    rounds.round_ended(RoundEnd::Ended(Err(KirkError::KernelPanic("p".to_owned()))));
    assert_eq!(rounds.step(false), SuiteStep::Restart);
    rounds.restarted(Err(KirkError::Sut("no".to_owned())));
    assert!(matches!(rounds.completed(&TextMap::new()).1, Err(KirkError::Sut(_))));
}

#[test]
fn test_suite_scheduler_max_workers_bounds_concurrency() {
    let tests: Vec<Test> = (0..9).map(|index| sleep_test(index, "0.2")).collect();
    let mut sched = suite_scheduler(3);
    let inner = sched.test_scheduler_mut();
    let (outcome, most) = run_all(inner, &mut FakeSut::new(Mode::Normal), &tests, None);
    outcome.expect("schedule succeeds");
    assert!(most > 1 && most <= 3);
    let (results, _) = scheduled(3, Mode::Normal, tests);
    assert_eq!(results.len(), 1);
    assert_eq!(results[0].tests_results().len(), 9);
}

#[test]
fn only_kernel_errors_restart() {
    let text = || String::from("x");
    assert!(needs_restart(&KirkError::KernelPanic(text())));
    assert!(needs_restart(&KirkError::KernelTainted(text())));
    assert!(needs_restart(&KirkError::KernelTimeout(text())));
    assert!(!needs_restart(&KirkError::Communication(text())));
    assert!(!needs_restart(&KirkError::Scheduler(text())));
}

#[test]
fn forced_tests_run_side_by_side() {
    let mut tests: Vec<Test> =
        ["a", "b", "c"].iter().map(|name| Test::new(name, "echo").unwrap()).collect();
    for test in &mut tests {
        test.force_parallel();
    }
    let plan = scheduler(2).schedule(&tests).unwrap();
    assert_eq!(plan.parallel.len(), 3);
    assert!(plan.sequential.is_empty());
}

#[test]
fn changed_taint_flags_are_told() {
    let mut exec = ExecTest::new();
    assert_eq!(exec.tainted(Ok((1, vec!["old".to_owned()]))), None);
    exec.ran(RunOutcome::Ended(Ok(Some(CmdResult {
        command: "ls".to_owned(),
        returncode: 0,
        stdout: "out".to_owned(),
        exec_time: 0,
    }))));
    let flags = vec!["proprietary".to_owned(), "out of tree".to_owned()];
    assert_eq!(exec.tainted(Ok((3, flags))), Some("proprietary, out of tree".to_owned()));
    let done = exec.finish("ls", "", 0);
    assert_eq!(done.detail, "proprietary, out of tree");
    assert_eq!(done.row.unwrap().stdout, "out");
}
