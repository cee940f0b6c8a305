//! Test results and their sums over a suite.

use crate::data::Suite;
use crate::data::SuiteView;
use crate::data::Test;
use crate::data::TestView;
use crate::text;
use vstd::prelude::*;
use vstd::string::*;

verus! {

/// Overall status of a test.
#[derive(Debug, Clone, Copy, PartialEq, Eq, Structural)]
pub struct ResultStatus;

impl ResultStatus {
    /// Test has passed.
    pub const PASS: i32 = 0;

    /// Test is broken.
    pub const BROK: i32 = 2;

    /// Test warnings received.
    pub const WARN: i32 = 4;

    /// Test has failed.
    pub const FAIL: i32 = 16;

    /// Test can't run because of configuration error.
    pub const CONF: i32 = 32;
}

/// Results of a test.
#[derive(Debug, PartialEq, Eq)]
pub struct TestResults {
    test: Test,
    failed: u32,
    passed: u32,
    broken: u32,
    skipped: u32,
    warnings: u32,
    exec_time: u64,
    status: i32,
    retcode: i32,
    stdout: String,
}

/// What the results of a test are.
#[verifier::ext_equal]
pub struct TestResultsView {
    /// Test that was executed.
    pub test: TestView,
    /// Number of failures.
    pub failed: u32,
    /// Number of passes.
    pub passed: u32,
    /// Number of broken checks.
    pub broken: u32,
    /// Number of skipped checks.
    pub skipped: u32,
    /// Number of warnings.
    pub warnings: u32,
    /// Execution time in seconds, as the bits of an IEEE 754 double.
    pub exec_time: u64,
    /// Overall status.
    pub status: i32,
    /// Return code of the test.
    pub retcode: i32,
    /// Output of the test.
    pub stdout: Seq<char>,
}

impl View for TestResults {
    type V = TestResultsView;

    closed spec fn view(&self) -> TestResultsView {
        TestResultsView {
            test: self.test@,
            failed: self.failed,
            passed: self.passed,
            broken: self.broken,
            skipped: self.skipped,
            warnings: self.warnings,
            exec_time: self.exec_time,
            status: self.status,
            retcode: self.retcode,
            stdout: self.stdout@,
        }
    }
}

/// Results of a test of which nothing is known yet.
pub open spec fn blank_results(test: TestView) -> TestResultsView {
    TestResultsView {
        test,
        failed: 0,
        passed: 0,
        broken: 0,
        skipped: 0,
        warnings: 0,
        exec_time: 0,
        status: ResultStatus::PASS,
        retcode: 0,
        stdout: Seq::empty(),
    }
}

impl Clone for TestResults {
    fn clone(&self) -> (r: Self)
        ensures
            r@ == self@,
    {
        TestResults {
            test: self.test.clone(),
            failed: self.failed,
            passed: self.passed,
            broken: self.broken,
            skipped: self.skipped,
            warnings: self.warnings,
            exec_time: self.exec_time,
            status: self.status,
            retcode: self.retcode,
            stdout: self.stdout.clone(),
        }
    }
}

impl TestResults {
    /// Create results for `test`, with all counters at zero.
    pub fn new(test: Test) -> (r: Self)
        ensures
            r@ == blank_results(test@),
    {
        TestResults {
            test,
            failed: 0,
            passed: 0,
            broken: 0,
            skipped: 0,
            warnings: 0,
            exec_time: 0,
            status: ResultStatus::PASS,
            retcode: 0,
            stdout: String::new(),
        }
    }

    /// Set the number of failures.
    pub fn with_failed(self, failed: u32) -> (r: Self)
        ensures
            r@ == (TestResultsView { failed, ..self@ }),
    {
        let mut t = self;
        t.failed = failed;
        t
    }

    /// Set the number of passes.
    pub fn with_passed(self, passed: u32) -> (r: Self)
        ensures
            r@ == (TestResultsView { passed, ..self@ }),
    {
        let mut t = self;
        t.passed = passed;
        t
    }

    /// Set the number of broken checks.
    pub fn with_broken(self, broken: u32) -> (r: Self)
        ensures
            r@ == (TestResultsView { broken, ..self@ }),
    {
        let mut t = self;
        t.broken = broken;
        t
    }

    /// Set the number of skipped checks.
    pub fn with_skipped(self, skipped: u32) -> (r: Self)
        ensures
            r@ == (TestResultsView { skipped, ..self@ }),
    {
        let mut t = self;
        t.skipped = skipped;
        t
    }

    /// Set the number of warnings.
    pub fn with_warnings(self, warnings: u32) -> (r: Self)
        ensures
            r@ == (TestResultsView { warnings, ..self@ }),
    {
        let mut t = self;
        t.warnings = warnings;
        t
    }

    /// Set the execution time in seconds, as the bits of an IEEE 754 double.
    pub fn with_exec_time(self, exec_time: u64) -> (r: Self)
        ensures
            r@ == (TestResultsView { exec_time, ..self@ }),
    {
        let mut t = self;
        t.exec_time = exec_time;
        t
    }

    /// Set the overall status.
    pub fn with_status(self, status: i32) -> (r: Self)
        ensures
            r@ == (TestResultsView { status, ..self@ }),
    {
        let mut t = self;
        t.status = status;
        t
    }

    /// Set the return code.
    pub fn with_retcode(self, retcode: i32) -> (r: Self)
        ensures
            r@ == (TestResultsView { retcode, ..self@ }),
    {
        let mut t = self;
        t.retcode = retcode;
        t
    }

    /// Set the output.
    pub fn with_stdout(self, stdout: &str) -> (r: Self)
        ensures
            r@ == (TestResultsView { stdout: stdout@, ..self@ }),
    {
        let mut t = self;
        t.stdout = stdout.to_owned();
        t
    }

    /// Test that was executed.
    pub fn test(&self) -> (r: &Test)
        ensures
            r@ == self@.test,
    {
        &self.test
    }

    /// Return code after execution.
    pub fn return_code(&self) -> (r: i32)
        ensures
            r == self@.retcode,
    {
        self.retcode
    }

    /// Output of the test.
    pub fn stdout(&self) -> (r: &str)
        ensures
            r@ == self@.stdout,
    {
        self.stdout.as_str()
    }

    /// Overall status.
    pub fn status(&self) -> (r: i32)
        ensures
            r == self@.status,
    {
        self.status
    }

    /// Execution time in seconds, as the bits of an IEEE 754 double.
    pub fn exec_time(&self) -> (r: u64)
        ensures
            r == self@.exec_time,
    {
        self.exec_time
    }

    /// Number of failures.
    pub fn failed(&self) -> (r: u32)
        ensures
            r == self@.failed,
    {
        self.failed
    }

    /// Number of passes.
    pub fn passed(&self) -> (r: u32)
        ensures
            r == self@.passed,
    {
        self.passed
    }

    /// Number of broken checks.
    pub fn broken(&self) -> (r: u32)
        ensures
            r == self@.broken,
    {
        self.broken
    }

    /// Number of skipped checks.
    pub fn skipped(&self) -> (r: u32)
        ensures
            r == self@.skipped,
    {
        self.skipped
    }

    /// Number of warnings.
    pub fn warnings(&self) -> (r: u32)
        ensures
            r == self@.warnings,
    {
        self.warnings
    }
}

/// What the results of tests are.
pub open spec fn results_views(v: Seq<TestResults>) -> Seq<TestResultsView> {
    v.map_values(|r: TestResults| r@)
}

/// Copy of results.
pub fn copy_results(v: &[TestResults]) -> (r: Vec<TestResults>)
    ensures
        results_views(r@) == results_views(v@),
{
    let mut r: Vec<TestResults> = Vec::new();
    let mut i: usize = 0;
    while i < v.len()
        invariant
            i <= v@.len(),
            results_views(r@) =~= results_views(v@).take(i as int),
        decreases v@.len() - i,
    {
        let ghost before = r@;
        let t = v[i].clone();
        r.push(t);
        assert(results_views(r@) =~= results_views(before).push(t@));
        i = i + 1;
    }
    assert(results_views(r@) =~= results_views(v@));
    r
}

/// A counter of the results.
#[derive(Debug, Clone, Copy, PartialEq, Eq, Structural)]
enum Counter {
    Failed,
    Passed,
    Broken,
    Skipped,
    Warnings,
}

/// Sum of numbers.
pub open spec fn sum(v: Seq<u32>) -> nat
    decreases v.len(),
{
    if v.len() == 0 {
        0
    } else {
        sum(v.drop_last()) + v.last() as nat
    }
}

proof fn sum_grows(v: Seq<u32>, i: int)
    requires
        0 <= i <= v.len(),
    ensures
        sum(v.take(i)) <= sum(v),
    decreases v.len() - i,
{
    if i == v.len() {
        assert(v.take(i) =~= v);
    } else {
        assert(v.take(i + 1).drop_last() =~= v.take(i));
        sum_grows(v, i + 1);
    }
}

/// Number of failures of each test.
pub open spec fn each_failed(v: Seq<TestResultsView>) -> Seq<u32> {
    v.map_values(|r: TestResultsView| r.failed)
}

/// Number of passes of each test.
pub open spec fn each_passed(v: Seq<TestResultsView>) -> Seq<u32> {
    v.map_values(|r: TestResultsView| r.passed)
}

/// Number of broken checks of each test.
pub open spec fn each_broken(v: Seq<TestResultsView>) -> Seq<u32> {
    v.map_values(|r: TestResultsView| r.broken)
}

/// Number of skipped checks of each test.
pub open spec fn each_skipped(v: Seq<TestResultsView>) -> Seq<u32> {
    v.map_values(|r: TestResultsView| r.skipped)
}

/// Number of warnings of each test.
pub open spec fn each_warnings(v: Seq<TestResultsView>) -> Seq<u32> {
    v.map_values(|r: TestResultsView| r.warnings)
}

spec fn each_count(v: Seq<TestResultsView>, c: Counter) -> Seq<u32> {
    match c {
        Counter::Failed => each_failed(v),
        Counter::Passed => each_passed(v),
        Counter::Broken => each_broken(v),
        Counter::Skipped => each_skipped(v),
        Counter::Warnings => each_warnings(v),
    }
}

fn total(v: &Vec<TestResults>, c: Counter) -> (n: u32)
    requires
        sum(each_count(results_views(v@), c)) <= u32::MAX,
    ensures
        n == sum(each_count(results_views(v@), c)),
{
    let ghost counts = each_count(results_views(v@), c);
    let mut n: u32 = 0;
    let mut i: usize = 0;
    assert(counts.take(0) =~= Seq::<u32>::empty());
    while i < v.len()
        invariant
            i <= v@.len(),
            counts == each_count(results_views(v@), c),
            counts.len() == v@.len(),
            sum(counts) <= u32::MAX,
            n == sum(counts.take(i as int)),
        decreases v@.len() - i,
    {
        let r = &v[i];
        let k: u32 = match c {
            Counter::Failed => r.failed,
            Counter::Passed => r.passed,
            Counter::Broken => r.broken,
            Counter::Skipped => r.skipped,
            Counter::Warnings => r.warnings,
        };
        proof {
            assert(results_views(v@)[i as int] == r@);
            assert(counts[i as int] == k);
            assert(counts.take(i + 1).drop_last() =~= counts.take(i as int));
            sum_grows(counts, i + 1);
        }
        n = n + k;
        i = i + 1;
    }
    assert(counts.take(v@.len() as int) =~= counts);
    n
}

/// Results of a testing suite.
#[derive(Debug, PartialEq, Eq)]
pub struct SuiteResults {
    suite: Suite,
    tests: Vec<TestResults>,
    distro: Option<String>,
    distro_ver: Option<String>,
    kernel: Option<String>,
    cmdline: Option<String>,
    arch: Option<String>,
    cpu: Option<String>,
    swap: Option<String>,
    ram: Option<String>,
}

/// What the results of a suite are.
#[verifier::ext_equal]
pub struct SuiteResultsView {
    /// Testing suite.
    pub suite: SuiteView,
    /// Results of its tests.
    pub tests: Seq<TestResultsView>,
    /// Linux distribution name.
    pub distro: Option<Seq<char>>,
    /// Linux distribution version.
    pub distro_ver: Option<Seq<char>>,
    /// Kernel version.
    pub kernel: Option<Seq<char>>,
    /// Kernel command line.
    pub cmdline: Option<Seq<char>>,
    /// Operating system architecture.
    pub arch: Option<Seq<char>>,
    /// CPU type.
    pub cpu: Option<Seq<char>>,
    /// Swap memory occupation.
    pub swap: Option<Seq<char>>,
    /// RAM occupation.
    pub ram: Option<Seq<char>>,
}

impl View for SuiteResults {
    type V = SuiteResultsView;

    closed spec fn view(&self) -> SuiteResultsView {
        SuiteResultsView {
            suite: self.suite@,
            tests: results_views(self.tests@),
            distro: text::opt_text(self.distro),
            distro_ver: text::opt_text(self.distro_ver),
            kernel: text::opt_text(self.kernel),
            cmdline: text::opt_text(self.cmdline),
            arch: text::opt_text(self.arch),
            cpu: text::opt_text(self.cpu),
            swap: text::opt_text(self.swap),
            ram: text::opt_text(self.ram),
        }
    }
}

/// Results of a suite of which nothing is known yet.
pub open spec fn blank_suite_results(suite: SuiteView) -> SuiteResultsView {
    SuiteResultsView {
        suite,
        tests: Seq::empty(),
        distro: None,
        distro_ver: None,
        kernel: None,
        cmdline: None,
        arch: None,
        cpu: None,
        swap: None,
        ram: None,
    }
}

impl Clone for SuiteResults {
    fn clone(&self) -> (r: Self)
        ensures
            r@ == self@,
    {
        SuiteResults {
            suite: self.suite.clone(),
            tests: copy_results(self.tests.as_slice()),
            distro: text::copy_opt(&self.distro),
            distro_ver: text::copy_opt(&self.distro_ver),
            kernel: text::copy_opt(&self.kernel),
            cmdline: text::copy_opt(&self.cmdline),
            arch: text::copy_opt(&self.arch),
            cpu: text::copy_opt(&self.cpu),
            swap: text::copy_opt(&self.swap),
            ram: text::copy_opt(&self.ram),
        }
    }
}

impl SuiteResults {
    /// Create empty results for `suite`.
    pub fn new(suite: Suite) -> (r: Self)
        ensures
            r@ == blank_suite_results(suite@),
    {
        let r = SuiteResults {
            suite,
            tests: Vec::new(),
            distro: None,
            distro_ver: None,
            kernel: None,
            cmdline: None,
            arch: None,
            cpu: None,
            swap: None,
            ram: None,
        };
        assert(r@.tests =~= Seq::<TestResultsView>::empty());
        r
    }

    /// Set the results of the tests.
    pub fn with_tests(self, tests: Vec<TestResults>) -> (r: Self)
        ensures
            r@ == (SuiteResultsView { tests: results_views(tests@), ..self@ }),
    {
        let mut t = self;
        t.tests = tests;
        t
    }

    /// Set the Linux distribution name.
    pub fn with_distro(self, distro: &str) -> (r: Self)
        ensures
            r@ == (SuiteResultsView { distro: Some(distro@), ..self@ }),
    {
        let mut t = self;
        t.distro = Some(distro.to_owned());
        t
    }

    /// Set the Linux distribution version.
    pub fn with_distro_ver(self, distro_ver: &str) -> (r: Self)
        ensures
            r@ == (SuiteResultsView { distro_ver: Some(distro_ver@), ..self@ }),
    {
        let mut t = self;
        t.distro_ver = Some(distro_ver.to_owned());
        t
    }

    /// Set the kernel version.
    pub fn with_kernel(self, kernel: &str) -> (r: Self)
        ensures
            r@ == (SuiteResultsView { kernel: Some(kernel@), ..self@ }),
    {
        let mut t = self;
        t.kernel = Some(kernel.to_owned());
        t
    }

    /// Set the kernel command line.
    pub fn with_cmdline(self, cmdline: &str) -> (r: Self)
        ensures
            r@ == (SuiteResultsView { cmdline: Some(cmdline@), ..self@ }),
    {
        let mut t = self;
        t.cmdline = Some(cmdline.to_owned());
        t
    }

    /// Set the operating system architecture.
    pub fn with_arch(self, arch: &str) -> (r: Self)
        ensures
            r@ == (SuiteResultsView { arch: Some(arch@), ..self@ }),
    {
        let mut t = self;
        t.arch = Some(arch.to_owned());
        t
    }

    /// Set the CPU type.
    pub fn with_cpu(self, cpu: &str) -> (r: Self)
        ensures
            r@ == (SuiteResultsView { cpu: Some(cpu@), ..self@ }),
    {
        let mut t = self;
        t.cpu = Some(cpu.to_owned());
        t
    }

    /// Set the swap memory occupation.
    pub fn with_swap(self, swap: &str) -> (r: Self)
        ensures
            r@ == (SuiteResultsView { swap: Some(swap@), ..self@ }),
    {
        let mut t = self;
        t.swap = Some(swap.to_owned());
        t
    }

    /// Set the RAM occupation.
    pub fn with_ram(self, ram: &str) -> (r: Self)
        ensures
            r@ == (SuiteResultsView { ram: Some(ram@), ..self@ }),
    {
        let mut t = self;
        t.ram = Some(ram.to_owned());
        t
    }

    /// Testing suite.
    pub fn suite(&self) -> (r: &Suite)
        ensures
            r@ == self@.suite,
    {
        &self.suite
    }

    /// Results of the tests.
    pub fn tests_results(&self) -> (r: &[TestResults])
        ensures
            results_views(r@) == self@.tests,
    {
        self.tests.as_slice()
    }

    /// Linux distribution name, where it is known.
    pub fn distro(&self) -> (r: Option<&str>)
        ensures
            text::opt_str(r) == self@.distro,
    {
        text::borrow_opt(&self.distro)
    }

    /// Linux distribution version, where it is known.
    pub fn distro_ver(&self) -> (r: Option<&str>)
        ensures
            text::opt_str(r) == self@.distro_ver,
    {
        text::borrow_opt(&self.distro_ver)
    }

    /// Kernel version, where it is known.
    pub fn kernel(&self) -> (r: Option<&str>)
        ensures
            text::opt_str(r) == self@.kernel,
    {
        text::borrow_opt(&self.kernel)
    }

    /// Kernel command line, where it is known.
    pub fn cmdline(&self) -> (r: Option<&str>)
        ensures
            text::opt_str(r) == self@.cmdline,
    {
        text::borrow_opt(&self.cmdline)
    }

    /// Operating system architecture, where it is known.
    pub fn arch(&self) -> (r: Option<&str>)
        ensures
            text::opt_str(r) == self@.arch,
    {
        text::borrow_opt(&self.arch)
    }

    /// CPU type, where it is known.
    pub fn cpu(&self) -> (r: Option<&str>)
        ensures
            text::opt_str(r) == self@.cpu,
    {
        text::borrow_opt(&self.cpu)
    }

    /// Swap memory occupation, where it is known.
    pub fn swap(&self) -> (r: Option<&str>)
        ensures
            text::opt_str(r) == self@.swap,
    {
        text::borrow_opt(&self.swap)
    }

    /// RAM occupation, where it is known.
    pub fn ram(&self) -> (r: Option<&str>)
        ensures
            text::opt_str(r) == self@.ram,
    {
        text::borrow_opt(&self.ram)
    }

    /// Total number of failures.
    pub fn failed(&self) -> (n: u32)
        requires
            sum(each_failed(self@.tests)) <= u32::MAX,
        ensures
            n == sum(each_failed(self@.tests)),
    {
        total(&self.tests, Counter::Failed)
    }

    /// Total number of passes.
    pub fn passed(&self) -> (n: u32)
        requires
            sum(each_passed(self@.tests)) <= u32::MAX,
        ensures
            n == sum(each_passed(self@.tests)),
    {
        total(&self.tests, Counter::Passed)
    }

    /// Total number of broken checks.
    pub fn broken(&self) -> (n: u32)
        requires
            sum(each_broken(self@.tests)) <= u32::MAX,
        ensures
            n == sum(each_broken(self@.tests)),
    {
        total(&self.tests, Counter::Broken)
    }

    /// Total number of skipped checks.
    pub fn skipped(&self) -> (n: u32)
        requires
            sum(each_skipped(self@.tests)) <= u32::MAX,
        ensures
            n == sum(each_skipped(self@.tests)),
    {
        total(&self.tests, Counter::Skipped)
    }

    /// Total number of warnings.
    pub fn warnings(&self) -> (n: u32)
        requires
            sum(each_warnings(self@.tests)) <= u32::MAX,
        ensures
            n == sum(each_warnings(self@.tests)),
    {
        total(&self.tests, Counter::Warnings)
    }
}

/// Totals of results grow with each result by its own counters, and start at
/// zero.
pub proof fn totals_add_up(front: Seq<TestResultsView>, r: TestResultsView)
    ensures
        sum(each_failed(front.push(r))) == sum(each_failed(front)) + r.failed,
        sum(each_passed(front.push(r))) == sum(each_passed(front)) + r.passed,
        sum(each_broken(front.push(r))) == sum(each_broken(front)) + r.broken,
        sum(each_skipped(front.push(r))) == sum(each_skipped(front)) + r.skipped,
        sum(each_warnings(front.push(r))) == sum(each_warnings(front)) + r.warnings,
        sum(each_failed(Seq::empty())) == 0,
        sum(each_passed(Seq::empty())) == 0,
        sum(each_broken(Seq::empty())) == 0,
        sum(each_skipped(Seq::empty())) == 0,
        sum(each_warnings(Seq::empty())) == 0,
{
    let all = front.push(r);
    assert(each_failed(all).drop_last() =~= each_failed(front));
    assert(each_passed(all).drop_last() =~= each_passed(front));
    assert(each_broken(all).drop_last() =~= each_broken(front));
    assert(each_skipped(all).drop_last() =~= each_skipped(front));
    assert(each_warnings(all).drop_last() =~= each_warnings(front));
}

} // verus!
