//! Session: which tests are selected, in what order they run, and what is
//! written down for a later session.

use crate::com::CmdResult;
use crate::data;
use crate::data::Suite;
use crate::data::SuiteView;
use crate::data::Test;
use crate::data::TestView;
use crate::dict;
use crate::errors;
use crate::errors::ErrorView;
use crate::errors::KirkError;
use crate::pattern;
use crate::results;
use crate::results::SuiteResults;
use crate::results::SuiteResultsView;
use crate::scheduler::suite_sched;
use crate::scheduler::test_sched;
use crate::text;
use vstd::prelude::*;
use vstd::string::*;

verus! {

/// Options of a run.
#[derive(Debug, Clone)]
pub struct RunOptions {
    /// Single command to run before suites.
    pub command: Option<String>,
    /// Suites to execute.
    pub suites: Vec<String>,
    /// Regular expression that keeps only matching tests.
    pub pattern: Option<String>,
    /// Regular expression that skips matching tests.
    pub skip_tests: Option<String>,
    /// Path of the JSON report.
    pub report_path: Option<String>,
    /// Folder of an earlier session; tests that it executed are skipped.
    pub restore_path: Option<String>,
    /// Execute all suites this many times; up to one means once.
    pub suite_iterate: usize,
    /// Shuffle tests before scheduling.
    pub randomize: bool,
    /// Run for this many seconds, as the bits of a double.
    pub runtime: u64,
    /// Fault injection probability; zero disables it.
    pub fault_prob: u32,
    /// Fault injection interval.
    pub fault_interval: u32,
    /// List selected tests without executing them.
    pub dry_run: bool,
}

impl Default for RunOptions {
    fn default() -> (r: Self)
        ensures
            r.command is None,
            r.suites@ == Seq::<String>::empty(),
            r.pattern is None,
            r.skip_tests is None,
            r.report_path is None,
            r.restore_path is None,
            r.suite_iterate == 0,
            !r.randomize,
            r.runtime == 0,
            r.fault_prob == 0,
            r.fault_interval == 0,
            !r.dry_run,
    {
        RunOptions {
            command: None,
            suites: Vec::new(),
            pattern: None,
            skip_tests: None,
            report_path: None,
            restore_path: None,
            suite_iterate: 0,
            randomize: false,
            runtime: 0,
            fault_prob: 0,
            fault_interval: 0,
            dry_run: false,
        }
    }
}

/// One hour in seconds, as the bits of a double.
pub const HOUR: u64 = 0x40ac_2000_0000_0000;

/// Parameters of a session. Timeouts are in seconds, as the bits of a double.
#[derive(Debug, Clone, Copy, PartialEq, Eq, Structural)]
pub struct SessionConfig {
    /// Timeout of a test.
    pub exec_timeout: u64,
    /// Timeout of a suite.
    pub suite_timeout: u64,
    /// Number of workers.
    pub workers: usize,
    /// Force every test to run in parallel.
    pub force_parallel: bool,
}

impl Default for SessionConfig {
    fn default() -> (r: Self)
        ensures
            r == (SessionConfig {
                exec_timeout: HOUR,
                suite_timeout: HOUR,
                workers: 1,
                force_parallel: false,
            }),
    {
        SessionConfig {
            exec_timeout: HOUR,
            suite_timeout: HOUR,
            workers: 1,
            force_parallel: false,
        }
    }
}

/// What suites are.
pub open spec fn suite_views(v: Seq<Suite>) -> Seq<SuiteView> {
    v.map_values(|s: Suite| s@)
}

/// A text that is there and not empty.
pub open spec fn given(s: Option<Seq<char>>) -> Option<Seq<char>> {
    match s {
        Some(t) => if t.len() == 0 {
            None
        } else {
            Some(t)
        },
        None => None,
    }
}

fn given_text(s: Option<&str>) -> (r: Option<&str>)
    ensures
        text::opt_str(r) == given(text::opt_str(s)),
{
    match s {
        Some(t) => if t.is_empty() {
            None
        } else {
            Some(t)
        },
        None => None,
    }
}

/// Tests whose name matches a pattern, or those whose name does not where
/// matching tests are skipped.
pub open spec fn matching(
    tests: Seq<TestView>,
    pattern: Seq<char>,
    when_matching: bool,
) -> Seq<TestView> {
    tests.filter(|t: TestView| pattern::pattern_matches(pattern, t.name) != when_matching)
}

/// Tests that are kept, given for each whether it matches.
pub open spec fn kept(tests: Seq<TestView>, matched: Seq<bool>, when_matching: bool) -> Seq<
    TestView,
>
    decreases tests.len(),
{
    if tests.len() == 0 {
        Seq::empty()
    } else {
        let before = kept(tests.drop_last(), matched, when_matching);
        if matched[tests.len() - 1] != when_matching {
            before.push(tests.last())
        } else {
            before
        }
    }
}

/// Filter the tests of a suite, given for each whether it matches.
pub fn keep_tests(suite: &Suite, matched: &Vec<bool>, when_matching: bool) -> (r: Suite)
    requires
        matched@.len() == suite@.tests.len(),
    ensures
        r@ == (SuiteView {
            name: suite@.name,
            tests: kept(suite@.tests, matched@, when_matching),
        }),
{
    let tests = suite.tests();
    let ghost all = data::test_views(tests@);
    let mut r: Vec<Test> = Vec::new();
    let mut i: usize = 0;
    assert(all.len() == tests@.len());
    assert(data::test_views(r@) =~= kept(all.take(0), matched@, when_matching));
    while i < tests.len()
        invariant
            i <= tests@.len(),
            all == data::test_views(tests@),
            matched@.len() == tests@.len(),
            data::test_views(r@) == kept(all.take(i as int), matched@, when_matching),
        decreases tests@.len() - i,
    {
        proof {
            assert(all.take(i + 1).drop_last() =~= all.take(i as int));
            assert(all.take(i + 1).last() == tests@[i as int]@);
        }
        if matched[i] != when_matching {
            let ghost before = r@;
            let t = tests[i].clone();
            r.push(t);
            assert(data::test_views(r@) =~= data::test_views(before).push(t@));
        }
        i = i + 1;
    }
    assert(all.take(all.len() as int) =~= all);
    Suite::new(suite.name(), r)
}

proof fn kept_is_matching(
    tests: Seq<TestView>,
    matched: Seq<bool>,
    pattern: Seq<char>,
    when_matching: bool,
)
    requires
        tests.len() <= matched.len(),
        forall|i: int|
            0 <= i < tests.len() ==> matched[i] == pattern::pattern_matches(
                pattern,
                (#[trigger] tests[i]).name,
            ),
    ensures
        kept(tests, matched, when_matching) == matching(tests, pattern, when_matching),
    decreases tests.len(),
{
    reveal(Seq::filter);
    if tests.len() > 0 {
        let front = tests.drop_last();
        assert forall|i: int| 0 <= i < front.len() implies matched[i] == pattern::pattern_matches(
            pattern,
            (#[trigger] front[i]).name,
        ) by {
            assert(front[i] == tests[i]);
        }
        kept_is_matching(front, matched, pattern, when_matching);
        assert(tests[tests.len() - 1] == tests.last());
    } else {
        assert(matching(tests, pattern, when_matching) =~= kept(tests, matched, when_matching));
    }
}

/// A suite with its tests filtered by a pattern.
pub open spec fn filtered(s: SuiteView, pattern: Seq<char>, when_matching: bool) -> SuiteView {
    SuiteView { name: s.name, tests: matching(s.tests, pattern, when_matching) }
}

/// Suites with their tests filtered by an optional pattern: an empty one, or
/// none, keeps all.
pub open spec fn filter_by(
    suites: Seq<SuiteView>,
    pattern: Option<Seq<char>>,
    when_matching: bool,
) -> Result<Seq<SuiteView>, ErrorView> {
    match given(pattern) {
        None => Ok(suites),
        Some(p) => match pattern::pattern_error(p) {
            Some(reason) => Err(ErrorView::Session("invalid test filter: "@ + reason)),
            None => Ok(suites.map_values(|s: SuiteView| filtered(s, p, when_matching))),
        },
    }
}

/// A filter keeps tests that match and the opposite one tests that do not;
/// together they keep as many tests as there are.
pub proof fn filters_are_opposite(tests: Seq<TestView>, pattern: Seq<char>)
    ensures
        matching(tests, pattern, false).len() + matching(tests, pattern, true).len()
            == tests.len(),
        forall|i: int|
            0 <= i < matching(tests, pattern, false).len() ==> pattern::pattern_matches(
                pattern,
                (#[trigger] matching(tests, pattern, false)[i]).name,
            ),
        forall|i: int|
            0 <= i < matching(tests, pattern, true).len() ==> !pattern::pattern_matches(
                pattern,
                (#[trigger] matching(tests, pattern, true)[i]).name,
            ),
    decreases tests.len(),
{
    reveal(Seq::filter);
    if tests.len() > 0 {
        let front = tests.drop_last();
        filters_are_opposite(front, pattern);
        let hit = pattern::pattern_matches(pattern, tests.last().name);
        let keep = matching(front, pattern, false);
        let skip = matching(front, pattern, true);
        assert(matching(tests, pattern, false) == if hit {
            keep.push(tests.last())
        } else {
            keep
        });
        assert(matching(tests, pattern, true) == if hit {
            skip
        } else {
            skip.push(tests.last())
        });
        assert forall|i: int|
            0 <= i < matching(tests, pattern, false).len() implies pattern::pattern_matches(
            pattern,
            (#[trigger] matching(tests, pattern, false)[i]).name,
        ) by {
            if i < keep.len() {
                assert(pattern::pattern_matches(pattern, keep[i].name));
            }
        }
        assert forall|i: int|
            0 <= i < matching(tests, pattern, true).len() implies !pattern::pattern_matches(
            pattern,
            (#[trigger] matching(tests, pattern, true)[i]).name,
        ) by {
            if i < skip.len() {
                assert(!pattern::pattern_matches(pattern, skip[i].name));
            }
        }
    }
}

fn match_names(suite: &Suite, pattern: &str) -> (r: Vec<bool>)
    requires
        pattern::pattern_error(pattern@) is None,
    ensures
        r@.len() == suite@.tests.len(),
        forall|i: int|
            0 <= i < r@.len() ==> r@[i] == pattern::pattern_matches(
                pattern@,
                (#[trigger] suite@.tests[i]).name,
            ),
{
    let tests = suite.tests();
    let mut r: Vec<bool> = Vec::new();
    let mut i: usize = 0;
    assert(suite@.tests.len() == tests@.len());
    while i < tests.len()
        invariant
            i <= tests@.len(),
            suite@.tests == data::test_views(tests@),
            pattern::pattern_error(pattern@) is None,
            r@.len() == i,
            forall|j: int|
                0 <= j < i ==> r@[j] == pattern::pattern_matches(
                    pattern@,
                    (#[trigger] suite@.tests[j]).name,
                ),
        decreases tests@.len() - i,
    {
        assert(suite@.tests[i as int] == tests@[i as int]@);
        r.push(pattern::is_match(pattern, tests[i].name()));
        i = i + 1;
    }
    r
}

/// Filter the tests of suites by a regular expression: keep those that match,
/// or those that do not where `when_matching` is set. On an error nothing
/// changes.
pub fn filter_tests(suites: &mut Vec<Suite>, regex: Option<&str>, when_matching: bool) -> (r: Result<
    (),
    KirkError,
>)
    ensures
        match filter_by(suite_views(old(suites)@), text::opt_str(regex), when_matching) {
            Ok(after) => r is Ok && suite_views(final(suites)@) == after,
            Err(x) => {
                &&& r matches Err(e)
                &&& e@ == x
                &&& final(suites)@ == old(suites)@
            },
        },
{
    let regex = match given_text(regex) {
        Some(regex) => regex,
        None => {
            return Ok(());
        },
    };
    match pattern::check_pattern(regex) {
        Some(reason) => {
            return Err(
                KirkError::Session(text::cat2("invalid test filter: ", reason.as_str())),
            );
        },
        None => {},
    }
    let ghost start = suite_views(suites@);
    let ghost goal = start.map_values(|s: SuiteView| filtered(s, regex@, when_matching));
    let mut i: usize = 0;
    assert(suite_views(suites@) =~= goal.take(0) + start.skip(0));
    while i < suites.len()
        invariant
            i <= suites@.len(),
            pattern::pattern_error(regex@) is None,
            goal == start.map_values(|s: SuiteView| filtered(s, regex@, when_matching)),
            suites@.len() == start.len(),
            suite_views(suites@) == goal.take(i as int) + start.skip(i as int),
        decreases suites@.len() - i,
    {
        let ghost before = suite_views(suites@);
        proof {
            assert(before[i as int] == suites@[i as int]@);
            assert(before[i as int] == start[i as int]);
        }
        let matched = match_names(&suites[i], regex);
        let suite = keep_tests(&suites[i], &matched, when_matching);
        proof {
            kept_is_matching(start[i as int].tests, matched@, regex@, when_matching);
            assert(suite@ == goal[i as int]);
        }
        suites.set(i, suite);
        proof {
            assert(suite_views(suites@) =~= before.update(i as int, suite@));
            assert(suite_views(suites@) =~= goal.take(i + 1) + start.skip(i + 1));
        }
        i = i + 1;
    }
    assert(goal.take(i as int) + start.skip(i as int) =~= goal);
    Ok(())
}

/// Name of a repeated suite.
pub open spec fn repeat_name(name: Seq<char>, i: nat) -> Seq<char> {
    name + "["@ + text::decimal_text(i) + "]"@
}

/// A suite, repeated for the time with the number `i`.
pub open spec fn repeated(s: SuiteView, i: nat) -> SuiteView {
    SuiteView { name: repeat_name(s.name, i), tests: s.tests }
}

/// All repeats of a suite.
pub open spec fn repeats(s: SuiteView, n: nat) -> Seq<SuiteView> {
    Seq::new(n, |i: int| repeated(s, i as nat))
}

/// Suites, each repeated `n` times in a row; up to once, they are left as
/// they are.
pub open spec fn iterated(suites: Seq<SuiteView>, n: nat) -> Seq<SuiteView>
    decreases suites.len(),
{
    if n <= 1 {
        suites
    } else if suites.len() == 0 {
        Seq::empty()
    } else {
        iterated(suites.drop_last(), n) + repeats(suites.last(), n)
    }
}

/// Repeating suites multiplies their number, and keeps the tests of each.
pub proof fn iterate_multiplies(suites: Seq<SuiteView>, n: nat)
    requires
        n > 1,
    ensures
        iterated(suites, n).len() == suites.len() * n,
    decreases suites.len(),
{
    if suites.len() > 0 {
        iterate_multiplies(suites.drop_last(), n);
        let k = suites.len() as int;
        assert((k - 1) * n + n == k * n) by (nonlinear_arith);
    } else {
        assert(0 * n == 0) by (nonlinear_arith);
    }
}

/// Suites run in their order, each as often as asked for: with `n` iterations
/// the suite at place `k` stands at the places from `k * n` on, with all its
/// tests, and its name tells the iterations apart. Up to one iteration leaves
/// the suites as they are.
pub proof fn iterations_stand_in_order(suites: Seq<SuiteView>, n: nat, k: int, i: int)
    requires
        0 <= k < suites.len(),
        0 <= i < n,
    ensures
        n > 1 ==> {
            let s = iterated(suites, n)[k * n + i];
            &&& 0 <= k * n + i < iterated(suites, n).len()
            &&& s.tests == suites[k].tests
            &&& s.name == suites[k].name + "["@ + text::decimal_text(i as nat) + "]"@
        },
        n <= 1 ==> iterated(suites, n) == suites,
    decreases suites.len(),
{
    if n > 1 {
        let front = suites.drop_last();
        iterate_multiplies(suites, n);
        iterate_multiplies(front, n);
        let m = suites.len() as int;
        assert(iterated(suites, n).len() == m * n);
        assert(iterated(front, n).len() == (m - 1) * n);
        if k == m - 1 {
            assert(iterated(suites, n)[k * n + i] == repeats(suites.last(), n)[i]);
            assert(k * n + n == m * n) by (nonlinear_arith)
                requires
                    k == m - 1,
            ;
            assert(k * n >= 0) by (nonlinear_arith)
                requires
                    k >= 0,
            ;
        } else {
            iterations_stand_in_order(front, n, k, i);
            assert(front[k] == suites[k]);
            assert(iterated(suites, n)[k * n + i] == iterated(front, n)[k * n + i]);
        }
    }
}

fn repeat_suite(suite: &Suite, i: usize) -> (r: Suite)
    ensures
        r@ == repeated(suite@, i as nat),
{
    let number = text::decimal(i as u64);
    let name = text::cat4(suite.name(), "[", number.as_str(), "]");
    Suite::new(name.as_str(), data::copy_slice(suite.tests()))
}

/// Rename suites for repeated execution.
pub fn apply_iterate(suites: Vec<Suite>, iterate: usize) -> (r: Vec<Suite>)
    ensures
        suite_views(r@) == iterated(suite_views(suites@), iterate as nat),
{
    if iterate <= 1 {
        return suites;
    }
    let ghost all = suite_views(suites@);
    let mut out: Vec<Suite> = Vec::new();
    let mut k: usize = 0;
    assert(suite_views(out@) =~= iterated(all.take(0), iterate as nat));
    while k < suites.len()
        invariant
            k <= suites@.len(),
            iterate > 1,
            all == suite_views(suites@),
            suite_views(out@) == iterated(all.take(k as int), iterate as nat),
        decreases suites@.len() - k,
    {
        let ghost done = iterated(all.take(k as int), iterate as nat);
        let ghost more = repeats(suites@[k as int]@, iterate as nat);
        let mut i: usize = 0;
        assert(suite_views(out@) =~= done + more.take(0));
        while i < iterate
            invariant
                k < suites@.len(),
                i <= iterate,
                more == repeats(suites@[k as int]@, iterate as nat),
                suite_views(out@) == done + more.take(i as int),
            decreases iterate - i,
        {
            let ghost before = out@;
            let suite = repeat_suite(&suites[k], i);
            out.push(suite);
            proof {
                assert(suite_views(out@) =~= suite_views(before).push(suite@));
                assert(done + more.take(i + 1) =~= (done + more.take(i as int)).push(
                    more[i as int],
                ));
            }
            i = i + 1;
        }
        proof {
            assert(more.take(iterate as int) =~= more);
            assert(all.take(k + 1).drop_last() =~= all.take(k as int));
            assert(all.take(k + 1).last() == suites@[k as int]@);
        }
        k = k + 1;
    }
    assert(all.take(all.len() as int) =~= all);
    out
}

/// Suites of the round with the given number, where suites run over and over.
pub fn round_suites(suites: &Vec<Suite>, count: usize) -> (r: Vec<Suite>)
    ensures
        suite_views(r@) == suite_views(suites@).map_values(
            |s: SuiteView| repeated(s, count as nat),
        ),
{
    let ghost goal = suite_views(suites@).map_values(|s: SuiteView| repeated(s, count as nat));
    let mut r: Vec<Suite> = Vec::new();
    let mut i: usize = 0;
    while i < suites.len()
        invariant
            i <= suites@.len(),
            goal == suite_views(suites@).map_values(|s: SuiteView| repeated(s, count as nat)),
            suite_views(r@) =~= goal.take(i as int),
        decreases suites@.len() - i,
    {
        let ghost before = r@;
        let suite = repeat_suite(&suites[i], count);
        r.push(suite);
        assert(suite_views(r@) =~= suite_views(before).push(suite@));
        i = i + 1;
    }
    assert(suite_views(r@) =~= goal);
    r
}

/// A test that an earlier session executed.
#[derive(Debug, Clone, PartialEq, Eq)]
pub struct Executed {
    /// Suite of the test.
    pub suite: String,
    /// Name of the test.
    pub test: String,
}

/// Suite and test of an executed test.
pub open spec fn executed_view(e: Executed) -> (Seq<char>, Seq<char>) {
    (e.suite@, e.test@)
}

/// Suites and tests of executed tests.
pub open spec fn executed_views(v: Seq<Executed>) -> Seq<(Seq<char>, Seq<char>)> {
    v.map_values(|e: Executed| executed_view(e))
}

/// First place from `i` on where `needle` stands, if any.
pub open spec fn place_of(hay: Seq<char>, needle: Seq<char>, i: int) -> Option<int>
    decreases hay.len() - i + 1,
{
    if i > hay.len() {
        None
    } else if text::occurs_at(hay, needle, i) {
        Some(i)
    } else {
        place_of(hay, needle, i + 1)
    }
}

proof fn place_is_first(hay: Seq<char>, needle: Seq<char>, i: int, at: int)
    requires
        i <= at <= hay.len(),
        text::occurs_at(hay, needle, at),
        forall|j: int| i <= j < at ==> !text::occurs_at(hay, needle, j),
    ensures
        place_of(hay, needle, i) == Some(at),
    decreases at - i,
{
    if i < at {
        place_is_first(hay, needle, i + 1, at);
    }
}

proof fn place_is_none(hay: Seq<char>, needle: Seq<char>, i: int)
    requires
        forall|j: int| i <= j ==> !text::occurs_at(hay, needle, j),
    ensures
        place_of(hay, needle, i) is None,
    decreases hay.len() - i + 1,
{
    if i <= hay.len() {
        place_is_none(hay, needle, i + 1);
    }
}

/// Executed test that a line names: suite and test with a double colon
/// between. White space at the end is dropped, and a line that names no suite
/// or no test is passed over.
pub open spec fn executed_entry(line: Seq<char>) -> Option<(Seq<char>, Seq<char>)> {
    match place_of(line, "::"@, 0) {
        None => None,
        Some(at) => {
            let suite = line.take(at);
            let test = text::trimmed_end(line.skip(at + 2));
            if suite.len() == 0 || test.len() == 0 {
                None
            } else {
                Some((suite, test))
            }
        },
    }
}

/// Executed tests that lines name, in order.
pub open spec fn executed_entries(lines: Seq<Seq<char>>) -> Seq<(Seq<char>, Seq<char>)>
    decreases lines.len(),
{
    if lines.len() == 0 {
        Seq::empty()
    } else {
        let before = executed_entries(lines.drop_last());
        match executed_entry(lines.last()) {
            Some(e) => before.push(e),
            None => before,
        }
    }
}

fn read_entry(line: &str) -> (r: Option<Executed>)
    ensures
        match r {
            Some(e) => executed_entry(line@) == Some(executed_view(e)),
            None => executed_entry(line@) is None,
        },
{
    proof {
        reveal_strlit("::");
    }
    let v = text::chars_of(line);
    let total: usize = v.len();
    let sep = text::chars_of("::");
    match text::find_from(&v, &sep, 0) {
        None => {
            proof {
                place_is_none(line@, "::"@, 0);
            }
            None
        },
        Some(at) => {
            proof {
                place_is_first(line@, "::"@, 0, at as int);
            }
            let suite = text::text_of_range(&v, 0, at);
            let rest = text::text_of_range(&v, at + 2, total);
            assert(suite@ =~= line@.take(at as int));
            assert(rest@ =~= line@.skip(at + 2));
            let test = text::trim_end(rest.as_str());
            if suite.as_str().is_empty() || test.as_str().is_empty() {
                None
            } else {
                Some(Executed { suite, test })
            }
        },
    }
}

/// Read the file in which an earlier session wrote down what it executed.
pub fn read_executed(content: &str) -> (r: Vec<Executed>)
    ensures
        executed_views(r@) == executed_entries(text::pieces(content@, '\n')),
{
    let lines = text::split_on(content, '\n');
    let ghost all = text::pieces(content@, '\n');
    let mut r: Vec<Executed> = Vec::new();
    let mut i: usize = 0;
    assert(executed_views(r@) =~= executed_entries(all.take(0)));
    while i < lines.len()
        invariant
            i <= lines@.len(),
            text::texts(lines@) == all,
            executed_views(r@) == executed_entries(all.take(i as int)),
        decreases lines@.len() - i,
    {
        proof {
            assert(all.take(i + 1).drop_last() =~= all.take(i as int));
            assert(all.take(i + 1).last() == lines@[i as int]@);
        }
        match read_entry(lines[i].as_str()) {
            Some(e) => {
                let ghost before = r@;
                r.push(e);
                assert(executed_views(r@) =~= executed_views(before).push(executed_view(e)));
            },
            None => {},
        }
        i = i + 1;
    }
    assert(all.take(all.len() as int) =~= all);
    r
}

/// Line for an executed test.
pub open spec fn executed_line(suite: Seq<char>, test: Seq<char>) -> Seq<char> {
    suite + "::"@ + test + "\n"@
}

/// Executed tests of the results of a suite, up to the number `n`.
pub open spec fn suite_pairs(s: SuiteResultsView, n: int) -> Seq<(Seq<char>, Seq<char>)> {
    Seq::new(n as nat, |i: int| (s.suite.name, s.tests[i].test.name))
}

/// Executed tests of results, in order.
pub open spec fn result_pairs(rs: Seq<SuiteResultsView>) -> Seq<(Seq<char>, Seq<char>)>
    decreases rs.len(),
{
    if rs.len() == 0 {
        Seq::empty()
    } else {
        result_pairs(rs.drop_last()) + suite_pairs(rs.last(), rs.last().tests.len() as int)
    }
}

/// Lines for executed tests.
pub open spec fn lines_text(pairs: Seq<(Seq<char>, Seq<char>)>) -> Seq<char>
    decreases pairs.len(),
{
    if pairs.len() == 0 {
        Seq::empty()
    } else {
        lines_text(pairs.drop_last()) + executed_line(pairs.last().0, pairs.last().1)
    }
}

/// Lines for the executed tests of results, in order.
pub fn executed_text(results: &Vec<SuiteResults>) -> (r: String)
    ensures
        r@ == lines_text(result_pairs(suite_sched::suite_results_views(results@))),
{
    let ghost all = suite_sched::suite_results_views(results@);
    let mut r = String::new();
    let mut k: usize = 0;
    assert(r@ =~= lines_text(result_pairs(all.take(0))));
    while k < results.len()
        invariant
            k <= results@.len(),
            all == suite_sched::suite_results_views(results@),
            r@ == lines_text(result_pairs(all.take(k as int))),
        decreases results@.len() - k,
    {
        let ghost before = result_pairs(all.take(k as int));
        let ghost s = results@[k as int]@;
        let tests = results[k].tests_results();
        assert(s.tests.len() == tests@.len());
        let mut i: usize = 0;
        assert(before + suite_pairs(s, 0) =~= before);
        while i < tests.len()
            invariant
                k < results@.len(),
                i <= tests@.len(),
                s == results@[k as int]@,
                s.tests == results::results_views(tests@),
                r@ == lines_text(before + suite_pairs(s, i as int)),
            decreases tests@.len() - i,
        {
            proof {
                let now = before + suite_pairs(s, i as int);
                let next = before + suite_pairs(s, i + 1);
                assert(s.tests[i as int] == tests@[i as int]@);
                assert(next.drop_last() =~= now);
                assert(next.last() == (s.suite.name, s.tests[i as int].test.name));
            }
            let line = text::cat4(
                results[k].suite().name(),
                "::",
                tests[i].test().name(),
                "\n",
            );
            r.append(line.as_str());
            i = i + 1;
        }
        proof {
            assert(all.take(k + 1).drop_last() =~= all.take(k as int));
            assert(all.take(k + 1).last() == s);
        }
        k = k + 1;
    }
    assert(all.take(all.len() as int) =~= all);
    r
}

/// Whether an executed test can be read back: its suite has a name without a
/// double colon, also together with the one that follows it, its own name
/// ends in no white space, and neither has a line feed.
pub open spec fn is_clean(pair: (Seq<char>, Seq<char>)) -> bool {
    let (suite, test) = pair;
    &&& suite.len() > 0
    &&& suite.last() != ':'
    &&& forall|i: int| 0 <= i < suite.len() - 1 ==> !(#[trigger] suite[i] == ':' && suite[i + 1] == ':')
    &&& test.len() > 0
    &&& text::trimmed_end(test) == test
    &&& !suite.contains('\n')
    &&& !test.contains('\n')
}

proof fn line_is_read(suite: Seq<char>, test: Seq<char>)
    requires
        is_clean((suite, test)),
    ensures
        executed_entry(suite + "::"@ + test) == Some((suite, test)),
{
    reveal_strlit("::");
    let line = suite + "::"@ + test;
    let at = suite.len() as int;
    assert(line.subrange(at, at + 2) =~= "::"@);
    assert forall|j: int| 0 <= j < at implies !text::occurs_at(line, "::"@, j) by {
        if text::occurs_at(line, "::"@, j) {
            let two = line.subrange(j, j + 2);
            assert(two[0] == line[j] && two[1] == line[j + 1]);
            assert(line[j] == suite[j]);
            if j + 1 < at {
                assert(line[j + 1] == suite[j + 1]);
            } else {
                assert(suite.last() == suite[j]);
            }
        }
    }
    place_is_first(line, "::"@, 0, at);
    assert(line.take(at) =~= suite);
    assert(line.skip(at + 2) =~= test);
}

proof fn lines_are_read(pairs: Seq<(Seq<char>, Seq<char>)>)
    requires
        forall|i: int| 0 <= i < pairs.len() ==> is_clean(#[trigger] pairs[i]),
    ensures
        ({
            let p = text::pieces(lines_text(pairs), '\n');
            &&& p.len() > 0
            &&& p.last().len() == 0
            &&& executed_entries(p.drop_last()) == pairs
        }),
    decreases pairs.len(),
{
    let content = lines_text(pairs);
    let p = text::pieces(content, '\n');
    if pairs.len() == 0 {
        assert(p.drop_last() =~= Seq::<Seq<char>>::empty());
        assert(executed_entries(p.drop_last()) =~= pairs);
    } else {
        let front = pairs.drop_last();
        assert forall|i: int| 0 <= i < front.len() implies is_clean(#[trigger] front[i]) by {
            assert(front[i] == pairs[i]);
        }
        lines_are_read(front);
        let before = lines_text(front);
        let q = text::pieces(before, '\n');
        let (suite, test) = pairs.last();
        assert(is_clean(pairs[pairs.len() - 1]));
        let body = suite + "::"@ + test;
        reveal_strlit("::");
        reveal_strlit("\n");
        if body.contains('\n') {
            let i = choose|i: int| 0 <= i < body.len() && body[i] == '\n';
            if i < suite.len() {
                assert(suite[i] == '\n');
            } else if i >= suite.len() + 2 {
                assert(test[i - suite.len() - 2] == '\n');
            }
        }
        text::pieces_grow(before, body, '\n');
        assert(q.last() + body =~= body);
        assert(content =~= (before + body).push('\n'));
        assert((before + body).push('\n').drop_last() =~= before + body);
        let grown = q.drop_last().push(body);
        assert(p == grown.push(Seq::<char>::empty()));
        assert(p.drop_last() =~= grown);
        assert(grown.drop_last() =~= q.drop_last());
        line_is_read(suite, test);
        assert(front.push(pairs.last()) =~= pairs);
    }
}

/// What a session writes down, a later session reads back: the same tests, in
/// the same order.
pub proof fn executed_round_trip(rs: Seq<SuiteResultsView>)
    requires
        forall|i: int| 0 <= i < result_pairs(rs).len() ==> is_clean(#[trigger] result_pairs(rs)[i]),
    ensures
        executed_entries(text::pieces(lines_text(result_pairs(rs)), '\n')) == result_pairs(rs),
{
    let pairs = result_pairs(rs);
    let p = text::pieces(lines_text(pairs), '\n');
    lines_are_read(pairs);
    reveal_strlit("::");
    assert(executed_entry(p.last()) is None) by {
        place_is_none(p.last(), "::"@, 0);
    }
    assert(executed_entries(p) == executed_entries(p.drop_last()));
}

/// Every result is written down, under the name of its suite and that of its
/// test, and nothing else is; the lines stand in the order of the results.
pub proof fn every_result_is_written(rs: Seq<SuiteResultsView>, k: int, i: int)
    requires
        0 <= k < rs.len(),
        0 <= i < rs[k].tests.len(),
    ensures
        result_pairs(rs).contains((rs[k].suite.name, rs[k].tests[i].test.name)),
        forall|p: (Seq<char>, Seq<char>)| #[trigger]
            result_pairs(rs).contains(p) ==> exists|a: int, b: int|
                0 <= a < rs.len() && 0 <= b < rs[a].tests.len() && p == (
                    rs[a].suite.name,
                    (#[trigger] rs[a].tests[b]).test.name,
                ),
    decreases rs.len(),
{
    pairs_hold(rs, k, i);
    assert forall|p: (Seq<char>, Seq<char>)| #[trigger] result_pairs(rs).contains(p) implies exists|
        a: int,
        b: int,
    |
        0 <= a < rs.len() && 0 <= b < rs[a].tests.len() && p == (
            rs[a].suite.name,
            (#[trigger] rs[a].tests[b]).test.name,
        ) by {
        pairs_are_results(rs, p);
    }
}

proof fn pairs_hold(rs: Seq<SuiteResultsView>, k: int, i: int)
    requires
        0 <= k < rs.len(),
        0 <= i < rs[k].tests.len(),
    ensures
        result_pairs(rs).contains((rs[k].suite.name, rs[k].tests[i].test.name)),
    decreases rs.len(),
{
    let front = result_pairs(rs.drop_last());
    let back = suite_pairs(rs.last(), rs.last().tests.len() as int);
    let p = (rs[k].suite.name, rs[k].tests[i].test.name);
    if k == rs.len() - 1 {
        assert(back[i] == p);
        assert((front + back)[front.len() + i] == p);
    } else {
        pairs_hold(rs.drop_last(), k, i);
        let j = choose|j: int| 0 <= j < front.len() && front[j] == p;
        assert((front + back)[j] == p);
    }
}

proof fn pairs_are_results(rs: Seq<SuiteResultsView>, p: (Seq<char>, Seq<char>))
    requires
        result_pairs(rs).contains(p),
    ensures
        exists|a: int, b: int|
            0 <= a < rs.len() && 0 <= b < rs[a].tests.len() && p == (
                rs[a].suite.name,
                (#[trigger] rs[a].tests[b]).test.name,
            ),
    decreases rs.len(),
{
    let front = result_pairs(rs.drop_last());
    let back = suite_pairs(rs.last(), rs.last().tests.len() as int);
    let j = choose|j: int| 0 <= j < result_pairs(rs).len() && result_pairs(rs)[j] == p;
    if j < front.len() {
        assert(front[j] == p);
        pairs_are_results(rs.drop_last(), p);
        let (a, b) = choose|a: int, b: int|
            0 <= a < rs.drop_last().len() && 0 <= b < rs.drop_last()[a].tests.len() && p == (
                rs.drop_last()[a].suite.name,
                (#[trigger] rs.drop_last()[a].tests[b]).test.name,
            );
        assert(rs[a].tests[b] == rs.drop_last()[a].tests[b]);
    } else {
        let last = rs.len() - 1;
        assert(back[j - front.len()] == p);
        assert(rs[last].tests[j - front.len()].test.name == p.1);
    }
}

/// One result more is one line more, at the end: the suite, a double colon,
/// the test and a line feed.
pub proof fn results_are_appended(
    rs: Seq<SuiteResultsView>,
    s: SuiteResultsView,
    r: results::TestResultsView,
)
    ensures
        ({
            let with = SuiteResultsView { tests: s.tests.push(r), ..s };
            lines_text(result_pairs(rs.push(with))) == lines_text(result_pairs(rs.push(s)))
                + s.suite.name + "::"@ + r.test.name + "\n"@
        }),
{
    let with = SuiteResultsView { tests: s.tests.push(r), ..s };
    let n = s.tests.len() as int;
    let pair = (s.suite.name, r.test.name);
    assert(rs.push(with).drop_last() =~= rs);
    assert(rs.push(s).drop_last() =~= rs);
    assert(suite_pairs(with, n + 1) =~= suite_pairs(s, n).push(pair));
    let before = result_pairs(rs.push(s));
    let after = result_pairs(rs.push(with));
    assert(after =~= before.push(pair));
    assert(before.push(pair).drop_last() =~= before);
    assert(lines_text(before) + executed_line(pair.0, pair.1) =~= lines_text(before) + s.suite.name
        + "::"@ + r.test.name + "\n"@);
}

/// Whether an earlier session executed a test.
pub open spec fn is_done(
    done: Seq<(Seq<char>, Seq<char>)>,
    suite: Seq<char>,
    test: Seq<char>,
) -> bool {
    done.contains((suite, test))
}

/// A suite without the tests that an earlier session executed.
pub open spec fn restored(s: SuiteView, done: Seq<(Seq<char>, Seq<char>)>) -> SuiteView {
    SuiteView {
        name: s.name,
        tests: s.tests.filter(|t: TestView| !is_done(done, s.name, t.name)),
    }
}

/// Restoring a session skips exactly the tests that it executed: no test of
/// the suite with results is left, and every other test is.
pub proof fn restore_skips_executed(s: SuiteView, rs: Seq<SuiteResultsView>, t: TestView)
    requires
        forall|i: int| 0 <= i < result_pairs(rs).len() ==> is_clean(#[trigger] result_pairs(rs)[i]),
        s.tests.contains(t),
    ensures
        ({
            let done = executed_entries(text::pieces(lines_text(result_pairs(rs)), '\n'));
            restored(s, done).tests.contains(t) <==> !result_pairs(rs).contains((s.name, t.name))
        }),
{
    executed_round_trip(rs);
    let done = executed_entries(text::pieces(lines_text(result_pairs(rs)), '\n'));
    let fresh = |t: TestView| !is_done(done, s.name, t.name);
    if fresh(t) {
        s.tests.lemma_filter_contains_rev(fresh, t);
    } else if s.tests.filter(fresh).contains(t) {
        let i = choose|i: int|
            0 <= i < s.tests.filter(fresh).len() && s.tests.filter(fresh)[i] == t;
        filter_holds(s.tests, fresh, i);
    }
}

proof fn filter_holds(s: Seq<TestView>, p: spec_fn(TestView) -> bool, i: int)
    requires
        0 <= i < s.filter(p).len(),
    ensures
        p(s.filter(p)[i]),
    decreases s.len(),
{
    reveal(Seq::filter);
    if s.len() > 0 {
        let front = s.drop_last();
        if i < front.filter(p).len() {
            filter_holds(front, p, i);
        }
    }
}

fn was_executed(done: &Vec<Executed>, suite: &str, test: &str) -> (r: bool)
    ensures
        r == is_done(executed_views(done@), suite@, test@),
{
    let mut i: usize = 0;
    while i < done.len()
        invariant
            i <= done@.len(),
            forall|j: int| 0 <= j < i ==> #[trigger] executed_views(done@)[j] != (suite@, test@),
        decreases done@.len() - i,
    {
        assert(executed_views(done@)[i as int] == executed_view(done@[i as int]));
        if text::same(done[i].suite.as_str(), suite) && text::same(done[i].test.as_str(), test) {
            return true;
        }
        i = i + 1;
    }
    false
}

fn restore_suite(suite: &Suite, done: &Vec<Executed>) -> (r: Suite)
    ensures
        r@ == restored(suite@, executed_views(done@)),
{
    let tests = suite.tests();
    let ghost all = data::test_views(tests@);
    let ghost past = executed_views(done@);
    let ghost name = suite@.name;
    let ghost fresh = |t: TestView| !is_done(past, name, t.name);
    let mut r: Vec<Test> = Vec::new();
    let mut i: usize = 0;
    proof {
        reveal(Seq::filter);
        assert(data::test_views(r@) =~= all.take(0).filter(fresh));
    }
    while i < tests.len()
        invariant
            i <= tests@.len(),
            all == data::test_views(tests@),
            past == executed_views(done@),
            name == suite@.name,
            fresh == |t: TestView| !is_done(past, name, t.name),
            data::test_views(r@) == all.take(i as int).filter(fresh),
        decreases tests@.len() - i,
    {
        proof {
            reveal(Seq::filter);
            assert(all.take(i + 1).drop_last() =~= all.take(i as int));
            assert(all.take(i + 1).last() == tests@[i as int]@);
        }
        if !was_executed(done, suite.name(), tests[i].name()) {
            let ghost before = r@;
            let t = tests[i].clone();
            r.push(t);
            assert(data::test_views(r@) =~= data::test_views(before).push(t@));
        }
        i = i + 1;
    }
    assert(all.take(all.len() as int) =~= all);
    let suite = Suite::new(suite.name(), r);
    suite
}

/// Take the tests that an earlier session executed out of suites.
pub fn restore_tests(suites: &mut Vec<Suite>, done: &Vec<Executed>)
    ensures
        suite_views(final(suites)@) == suite_views(old(suites)@).map_values(
            |s: SuiteView| restored(s, executed_views(done@)),
        ),
{
    let ghost start = suite_views(suites@);
    let ghost past = executed_views(done@);
    let ghost goal = start.map_values(|s: SuiteView| restored(s, past));
    let mut i: usize = 0;
    assert(suite_views(suites@) =~= goal.take(0) + start.skip(0));
    while i < suites.len()
        invariant
            i <= suites@.len(),
            past == executed_views(done@),
            goal == start.map_values(|s: SuiteView| restored(s, past)),
            suites@.len() == start.len(),
            suite_views(suites@) == goal.take(i as int) + start.skip(i as int),
        decreases suites@.len() - i,
    {
        let ghost before = suite_views(suites@);
        proof {
            assert(before[i as int] == suites@[i as int]@);
            assert(before[i as int] == start[i as int]);
        }
        let suite = restore_suite(&suites[i], done);
        suites.set(i, suite);
        proof {
            assert(suite_views(suites@) =~= before.update(i as int, suite@));
            assert(suite_views(suites@) =~= goal.take(i + 1) + start.skip(i + 1));
        }
        i = i + 1;
    }
    assert(goal.take(i as int) + start.skip(i as int) =~= goal);
}

/// A suite whose tests all run in parallel.
pub open spec fn forced(s: SuiteView) -> SuiteView {
    SuiteView {
        name: s.name,
        tests: s.tests.map_values(|t: TestView| TestView { parallelizable: true, ..t }),
    }
}

fn force_suite(suite: &Suite) -> (r: Suite)
    ensures
        r@ == forced(suite@),
{
    let tests = suite.tests();
    let ghost goal = forced(suite@).tests;
    let mut r: Vec<Test> = Vec::new();
    let mut i: usize = 0;
    while i < tests.len()
        invariant
            i <= tests@.len(),
            goal == forced(suite@).tests,
            suite@.tests == data::test_views(tests@),
            data::test_views(r@) =~= goal.take(i as int),
        decreases tests@.len() - i,
    {
        let ghost before = r@;
        let mut t = tests[i].clone();
        t.force_parallel();
        r.push(t);
        proof {
            assert(suite@.tests[i as int] == tests@[i as int]@);
            assert(data::test_views(r@) =~= data::test_views(before).push(t@));
        }
        i = i + 1;
    }
    assert(data::test_views(r@) =~= goal);
    Suite::new(suite.name(), r)
}

fn force_suites(suites: &Vec<Suite>) -> (r: Vec<Suite>)
    ensures
        suite_views(r@) == suite_views(suites@).map_values(|s: SuiteView| forced(s)),
{
    let ghost goal = suite_views(suites@).map_values(|s: SuiteView| forced(s));
    let mut r: Vec<Suite> = Vec::new();
    let mut i: usize = 0;
    while i < suites.len()
        invariant
            i <= suites@.len(),
            goal == suite_views(suites@).map_values(|s: SuiteView| forced(s)),
            suite_views(r@) =~= goal.take(i as int),
        decreases suites@.len() - i,
    {
        let ghost before = r@;
        let suite = force_suite(&suites[i]);
        r.push(suite);
        assert(suite_views(r@) =~= suite_views(before).push(suite@));
        i = i + 1;
    }
    assert(suite_views(r@) =~= goal);
    r
}

/// Whether no suite has a test.
pub open spec fn all_empty(suites: Seq<SuiteView>) -> bool {
    forall|i: int| 0 <= i < suites.len() ==> (#[trigger] suites[i]).tests.len() == 0
}

fn are_empty(suites: &Vec<Suite>) -> (r: bool)
    ensures
        r == all_empty(suite_views(suites@)),
{
    let mut i: usize = 0;
    while i < suites.len()
        invariant
            i <= suites@.len(),
            forall|j: int|
                0 <= j < i ==> (#[trigger] suite_views(suites@)[j]).tests.len() == 0,
        decreases suites@.len() - i,
    {
        let tests = suites[i].tests();
        assert(suite_views(suites@)[i as int] == suites@[i as int]@);
        assert(suites@[i as int]@.tests.len() == tests@.len());
        if tests.len() > 0 {
            return false;
        }
        i = i + 1;
    }
    true
}

/// Suites that a run executes, of those that were found: without the tests
/// that an earlier session executed, those that do not match the pattern and
/// those that match the skip pattern. It is an error if no test is left.
pub open spec fn selected(
    suites: Seq<SuiteView>,
    done: Seq<(Seq<char>, Seq<char>)>,
    pattern: Option<Seq<char>>,
    skip: Option<Seq<char>>,
    force_parallel: bool,
) -> Result<Seq<SuiteView>, ErrorView> {
    let left = suites.map_values(|s: SuiteView| restored(s, done));
    match filter_by(left, pattern, false) {
        Err(e) => Err(e),
        Ok(wanted) => match filter_by(wanted, skip, true) {
            Err(e) => Err(e),
            Ok(chosen) => if all_empty(chosen) {
                Err(ErrorView::Session("no tests selected"@))
            } else if force_parallel {
                Ok(chosen.map_values(|s: SuiteView| forced(s)))
            } else {
                Ok(chosen)
            },
        },
    }
}

/// Whether a run of a suite includes a test: no earlier session executed it,
/// it matches the pattern, and it does not match the skip pattern.
pub open spec fn qualifies(
    t: TestView,
    suite: Seq<char>,
    done: Seq<(Seq<char>, Seq<char>)>,
    pattern: Option<Seq<char>>,
    skip: Option<Seq<char>>,
) -> bool {
    &&& !is_done(done, suite, t.name)
    &&& given(pattern) matches Some(p) ==> pattern::pattern_matches(p, t.name)
    &&& given(skip) matches Some(p) ==> !pattern::pattern_matches(p, t.name)
}

proof fn filter_contains(s: Seq<TestView>, p: spec_fn(TestView) -> bool, t: TestView)
    ensures
        s.filter(p).contains(t) <==> s.contains(t) && p(t),
    decreases s.len(),
{
    reveal(Seq::filter);
    if s.len() > 0 {
        let front = s.drop_last();
        let before = front.filter(p);
        filter_contains(front, p, t);
        assert(front.push(s.last()) =~= s);
        if before.contains(t) {
            let k = choose|k: int| 0 <= k < before.len() && before[k] == t;
            assert(s.filter(p)[k] == t);
            let j = choose|j: int| 0 <= j < front.len() && front[j] == t;
            assert(s[j] == t);
        }
        if s.contains(t) && !front.contains(t) {
            let j = choose|j: int| 0 <= j < s.len() && s[j] == t;
            assert(j < front.len() ==> front[j] == t);
            assert(p(t) ==> s.filter(p)[before.len() as int] == t);
        }
        if s.filter(p).contains(t) && !before.contains(t) {
            let k = choose|k: int| 0 <= k < s.filter(p).len() && s.filter(p)[k] == t;
            assert(k < before.len() ==> before[k] == t);
            assert(s[s.len() - 1] == t);
        }
    }
}

/// Suites are selected under their names and in their order, and of each suite
/// exactly the tests that qualify. Where tests are forced to run in parallel,
/// every one of them is.
pub proof fn selected_tests_qualify(
    suites: Seq<SuiteView>,
    done: Seq<(Seq<char>, Seq<char>)>,
    pattern: Option<Seq<char>>,
    skip: Option<Seq<char>>,
    force_parallel: bool,
    i: int,
)
    requires
        selected(suites, done, pattern, skip, force_parallel) is Ok,
        0 <= i < suites.len(),
    ensures
        ({
            let chosen = selected(suites, done, pattern, skip, force_parallel)->Ok_0;
            &&& chosen.len() == suites.len()
            &&& chosen[i].name == suites[i].name
            &&& !force_parallel ==> forall|t: TestView| #[trigger]
                chosen[i].tests.contains(t) <==> suites[i].tests.contains(t) && qualifies(
                    t,
                    suites[i].name,
                    done,
                    pattern,
                    skip,
                )
            &&& force_parallel ==> forall|k: int|
                0 <= k < chosen[i].tests.len() ==> (#[trigger] chosen[i].tests[k]).parallelizable
                    && qualifies(chosen[i].tests[k], suites[i].name, done, pattern, skip)
        }),
{
    let name = suites[i].name;
    let left = suites.map_values(|s: SuiteView| restored(s, done));
    let wanted = filter_by(left, pattern, false)->Ok_0;
    let chosen = filter_by(wanted, skip, true)->Ok_0;
    assert forall|t: TestView| #[trigger] chosen[i].tests.contains(t) <==> suites[i].tests.contains(
        t,
    ) && qualifies(t, name, done, pattern, skip) by {
        filter_contains(suites[i].tests, |t: TestView| !is_done(done, name, t.name), t);
        assert(left[i] == restored(suites[i], done));
        match given(pattern) {
            Some(p) => {
                assert(wanted[i] == filtered(left[i], p, false));
                filter_contains(
                    left[i].tests,
                    |t: TestView| pattern::pattern_matches(p, t.name) != false,
                    t,
                );
            },
            None => {},
        }
        match given(skip) {
            Some(p) => {
                assert(chosen[i] == filtered(wanted[i], p, true));
                filter_contains(
                    wanted[i].tests,
                    |t: TestView| pattern::pattern_matches(p, t.name) != true,
                    t,
                );
            },
            None => {},
        }
    }
    if force_parallel {
        let all = selected(suites, done, pattern, skip, force_parallel)->Ok_0;
        assert(all[i] == forced(chosen[i]));
        assert forall|k: int| 0 <= k < all[i].tests.len() implies (#[trigger] all[i].tests[k]).parallelizable
            && qualifies(all[i].tests[k], name, done, pattern, skip) by {
            assert(chosen[i].tests.contains(chosen[i].tests[k]));
            assert(all[i].tests[k].name == chosen[i].tests[k].name);
        }
    }
}

/// The selection keeps the order of the tests of each suite: it is the list of
/// the tests with neither a line of their own in an earlier session nor a name
/// that the pattern does not match or the skip pattern does. Forcing tests to
/// run in parallel changes nothing else of them.
pub proof fn selection_keeps_order(
    suites: Seq<SuiteView>,
    done: Seq<(Seq<char>, Seq<char>)>,
    pattern: Option<Seq<char>>,
    skip: Option<Seq<char>>,
    i: int,
)
    requires
        selected(suites, done, pattern, skip, false) is Ok,
        0 <= i < suites.len(),
    ensures
        ({
            let plain = selected(suites, done, pattern, skip, false)->Ok_0;
            let forced = selected(suites, done, pattern, skip, true)->Ok_0;
            &&& selected(suites, done, pattern, skip, true) is Ok
            &&& plain[i].tests == suites[i].tests.filter(
                |t: TestView|
                    {
                        &&& !done.contains((suites[i].name, t.name))
                        &&& pattern matches Some(p) ==> p.len() > 0 ==> pattern::pattern_matches(
                            p,
                            t.name,
                        )
                        &&& skip matches Some(p) ==> p.len() > 0 ==> !pattern::pattern_matches(
                            p,
                            t.name,
                        )
                    },
            )
            &&& forced[i].name == plain[i].name
            &&& forced[i].tests.len() == plain[i].tests.len()
            &&& forall|k: int|
                0 <= k < plain[i].tests.len() ==> #[trigger] forced[i].tests[k] == (TestView {
                    parallelizable: true,
                    ..plain[i].tests[k]
                })
        }),
{
    let s = suites[i];
    let fresh = |t: TestView| !is_done(done, s.name, t.name);
    let left = suites.map_values(|s: SuiteView| restored(s, done));
    let wanted = filter_by(left, pattern, false)->Ok_0;
    let chosen = filter_by(wanted, skip, true)->Ok_0;
    assert(left[i].tests == s.tests.filter(fresh));
    let hits = |t: TestView| pattern matches Some(p) ==> p.len() > 0 ==> pattern::pattern_matches(
        p,
        t.name,
    );
    let misses = |t: TestView| skip matches Some(p) ==> p.len() > 0 ==> !pattern::pattern_matches(
        p,
        t.name,
    );
    match given(pattern) {
        Some(p) => {
            assert(wanted[i] == filtered(left[i], p, false));
            filters_alike(
                left[i].tests,
                |t: TestView| pattern::pattern_matches(p, t.name) != false,
                hits,
            );
        },
        None => {
            filter_of_all(left[i].tests, hits);
        },
    }
    assert(wanted[i].tests == left[i].tests.filter(hits));
    match given(skip) {
        Some(p) => {
            assert(chosen[i] == filtered(wanted[i], p, true));
            filters_alike(
                wanted[i].tests,
                |t: TestView| pattern::pattern_matches(p, t.name) != true,
                misses,
            );
        },
        None => {
            filter_of_all(wanted[i].tests, misses);
        },
    }
    assert(chosen[i].tests == wanted[i].tests.filter(misses));
    filters_combine(s.tests, fresh, hits);
    let both = |t: TestView| fresh(t) && hits(t);
    filters_combine(s.tests, both, misses);
    let all = |t: TestView|
        {
            &&& !done.contains((s.name, t.name))
            &&& pattern matches Some(p) ==> p.len() > 0 ==> pattern::pattern_matches(p, t.name)
            &&& skip matches Some(p) ==> p.len() > 0 ==> !pattern::pattern_matches(p, t.name)
        };
    filters_alike(s.tests, |t: TestView| both(t) && misses(t), all);
    let every = selected(suites, done, pattern, skip, true)->Ok_0;
    assert(every[i] == forced(chosen[i]));
}

proof fn filters_alike(s: Seq<TestView>, p: spec_fn(TestView) -> bool, q: spec_fn(TestView) -> bool)
    requires
        forall|t: TestView| #[trigger] p(t) == q(t),
    ensures
        s.filter(p) == s.filter(q),
    decreases s.len(),
{
    reveal(Seq::filter);
    if s.len() > 0 {
        filters_alike(s.drop_last(), p, q);
        assert(p(s.last()) == q(s.last()));
    }
}

proof fn filter_of_all(s: Seq<TestView>, p: spec_fn(TestView) -> bool)
    requires
        forall|t: TestView| #[trigger] p(t),
    ensures
        s.filter(p) == s,
    decreases s.len(),
{
    reveal(Seq::filter);
    if s.len() > 0 {
        filter_of_all(s.drop_last(), p);
        assert(p(s.last()));
        assert(s.drop_last().push(s.last()) =~= s);
    } else {
        assert(s.filter(p) =~= s);
    }
}

proof fn filters_combine(
    s: Seq<TestView>,
    p: spec_fn(TestView) -> bool,
    q: spec_fn(TestView) -> bool,
)
    ensures
        s.filter(p).filter(q) == s.filter(|t: TestView| p(t) && q(t)),
    decreases s.len(),
{
    reveal(Seq::filter);
    let both = |t: TestView| p(t) && q(t);
    if s.len() > 0 {
        let front = s.drop_last();
        filters_combine(front, p, q);
        if p(s.last()) {
            assert(s.filter(p).drop_last() =~= front.filter(p));
        }
        assert(both(s.last()) == (p(s.last()) && q(s.last())));
    } else {
        assert(s.filter(p).filter(q) =~= s.filter(both));
    }
}

/// A pattern that is no regular expression is an error, one that is given
/// before the other; so is a selection without tests. Nothing else is.
pub proof fn selection_fails_where_it_must(
    suites: Seq<SuiteView>,
    done: Seq<(Seq<char>, Seq<char>)>,
    pattern: Option<Seq<char>>,
    skip: Option<Seq<char>>,
    force_parallel: bool,
)
    ensures
        ({
            let bad = |s: Option<Seq<char>>| s matches Some(p) && p.len() > 0
                && pattern::pattern_error(p) is Some;
            let got = selected(suites, done, pattern, skip, force_parallel);
            &&& bad(pattern) || bad(skip) ==> (got matches Err(e) && e is Session)
            &&& !bad(pattern) && !bad(skip) ==> (got is Err
                <==> got == Err::<Seq<SuiteView>, ErrorView>(
                ErrorView::Session("no tests selected"@),
            ))
            &&& got matches Ok(chosen) ==> exists|i: int|
                0 <= i < chosen.len() && (#[trigger] chosen[i]).tests.len() > 0
        }),
{
    if let Ok(got) = selected(suites, done, pattern, skip, force_parallel) {
        let left = suites.map_values(|s: SuiteView| restored(s, done));
        let wanted = filter_by(left, pattern, false)->Ok_0;
        let chosen = filter_by(wanted, skip, true)->Ok_0;
        let i = choose|i: int| 0 <= i < chosen.len() && (#[trigger] chosen[i]).tests.len() != 0;
        if force_parallel {
            assert(got[i] == forced(chosen[i]));
        }
        assert(got[i].tests.len() > 0);
    }
}

/// Select the tests of a run.
pub fn read_suites(
    suites: Vec<Suite>,
    done: &Vec<Executed>,
    pattern: Option<&str>,
    skip_tests: Option<&str>,
    force_parallel: bool,
) -> (r: Result<Vec<Suite>, KirkError>)
    ensures
        match selected(
            suite_views(suites@),
            executed_views(done@),
            text::opt_str(pattern),
            text::opt_str(skip_tests),
            force_parallel,
        ) {
            Ok(chosen) => r matches Ok(v) && suite_views(v@) == chosen,
            Err(x) => r matches Err(e) && e@ == x,
        },
{
    let mut left = suites;
    restore_tests(&mut left, done);
    match filter_tests(&mut left, pattern, false) {
        Ok(_) => {},
        Err(e) => {
            return Err(e);
        },
    }
    match filter_tests(&mut left, skip_tests, true) {
        Ok(_) => {},
        Err(e) => {
            return Err(e);
        },
    }
    if are_empty(&left) {
        return Err(KirkError::Session(text::owned("no tests selected")));
    }
    if force_parallel {
        Ok(force_suites(&left))
    } else {
        Ok(left)
    }
}

/// Check the names of the suites to look for.
pub fn check_suite_names(names: &Vec<String>) -> (r: Result<(), KirkError>)
    ensures
        match r {
            Ok(_) => names@.len() > 0,
            Err(e) => names@.len() == 0 && e@ == ErrorView::Framework("can't find suites: []"@),
        },
{
    if names.len() == 0 {
        return Err(KirkError::Framework(text::owned("can't find suites: []")));
    }
    Ok(())
}

/// `rand::seq::SliceRandom::shuffle` with the generator of the thread: puts
/// numbers in an order that is chosen at random, and neither adds nor removes
/// any.
#[verifier::external_body]
fn shuffle(order: &mut Vec<usize>)
    ensures
        final(order)@.to_multiset() == old(order)@.to_multiset(),
{
    rand::seq::SliceRandom::shuffle(order.as_mut_slice(), &mut rand::rng());
}

/// Tests in the order of the given places.
pub open spec fn in_order(tests: Seq<TestView>, order: Seq<usize>) -> Seq<TestView> {
    order.map_values(|i: usize| tests[i as int])
}

/// The places of `n` tests, in order.
pub open spec fn places(n: nat) -> Seq<usize> {
    Seq::new(n, |i: int| i as usize)
}

/// Put the tests of a suite in the order of the given places.
pub fn reorder(suite: &Suite, order: &Vec<usize>) -> (r: Suite)
    requires
        forall|i: int| 0 <= i < order@.len() ==> #[trigger] order@[i] < suite@.tests.len(),
    ensures
        r@ == (SuiteView { name: suite@.name, tests: in_order(suite@.tests, order@) }),
{
    let tests = suite.tests();
    let ghost goal = in_order(suite@.tests, order@);
    let mut r: Vec<Test> = Vec::new();
    let mut i: usize = 0;
    assert(suite@.tests.len() == tests@.len());
    while i < order.len()
        invariant
            i <= order@.len(),
            suite@.tests == data::test_views(tests@),
            suite@.tests.len() == tests@.len(),
            forall|i: int| 0 <= i < order@.len() ==> #[trigger] order@[i] < suite@.tests.len(),
            goal == in_order(suite@.tests, order@),
            data::test_views(r@) =~= goal.take(i as int),
        decreases order@.len() - i,
    {
        let at: usize = order[i];
        let ghost before = r@;
        let t = tests[at].clone();
        r.push(t);
        proof {
            assert(suite@.tests[at as int] == tests@[at as int]@);
            assert(data::test_views(r@) =~= data::test_views(before).push(t@));
        }
        i = i + 1;
    }
    assert(data::test_views(r@) =~= goal);
    Suite::new(suite.name(), r)
}

/// Tests in two orders of the same places are the same tests.
proof fn same_tests(tests: Seq<TestView>, a: Seq<usize>, b: Seq<usize>)
    requires
        a.to_multiset() == b.to_multiset(),
    ensures
        in_order(tests, a).to_multiset() == in_order(tests, b).to_multiset(),
    decreases a.len(),
{
    broadcast use vstd::seq_lib::group_to_multiset_ensures;
    broadcast use vstd::multiset::group_multiset_axioms;

    if a.len() == 0 {
        assert(b.len() == 0) by {
            assert(b.to_multiset().len() == b.len());
            assert(a.to_multiset().len() == a.len());
        }
        assert(in_order(tests, a) =~= in_order(tests, b));
    } else {
        let e = a.last();
        let af = a.drop_last();
        assert(a =~= af.push(e));
        assert(a.to_multiset() =~= af.to_multiset().insert(e));
        assert(b.to_multiset().count(e) > 0);
        assert(b.contains(e));
        let j = choose|j: int| 0 <= j < b.len() && b[j] == e;
        let bf = b.remove(j);
        assert(bf.to_multiset() =~= b.to_multiset().remove(e));
        assert(af.to_multiset() =~= bf.to_multiset());
        same_tests(tests, af, bf);
        let t = tests[e as int];
        assert(in_order(tests, a) =~= in_order(tests, af).push(t));
        assert(in_order(tests, bf) =~= in_order(tests, b).remove(j));
        assert(in_order(tests, b)[j] == t);
        let mb = in_order(tests, b).to_multiset();
        assert(in_order(tests, bf).to_multiset() =~= mb.remove(t));
        assert(in_order(tests, b).contains(t));
        assert(mb.count(t) > 0);
        assert(mb.remove(t).insert(t) =~= mb);
        assert(in_order(tests, a).to_multiset() =~= in_order(tests, af).to_multiset().insert(t));
    }
}

proof fn places_are_kept(order: Seq<usize>, n: nat)
    requires
        order.to_multiset() == places(n).to_multiset(),
        n <= usize::MAX,
    ensures
        forall|i: int| 0 <= i < order.len() ==> #[trigger] order[i] < n,
{
    broadcast use vstd::seq_lib::group_to_multiset_ensures;

    assert forall|i: int| 0 <= i < order.len() implies #[trigger] order[i] < n by {
        assert(order.contains(order[i]));
        assert(order.to_multiset().count(order[i]) > 0);
        assert(places(n).contains(order[i]));
    }
}

/// Put the tests of a suite in an order that is chosen at random: each test is
/// there as often as before.
pub fn randomize(suite: &Suite) -> (r: Suite)
    ensures
        r@.name == suite@.name,
        r@.tests.to_multiset() == suite@.tests.to_multiset(),
{
    let n: usize = suite.tests().len();
    assert(suite@.tests.len() == n);
    let mut order: Vec<usize> = Vec::new();
    let mut i: usize = 0;
    while i < n
        invariant
            i <= n,
            order@ =~= places(i as nat),
        decreases n - i,
    {
        order.push(i);
        i = i + 1;
    }
    shuffle(&mut order);
    proof {
        places_are_kept(order@, n as nat);
        same_tests(suite@.tests, order@, places(n as nat));
        assert(in_order(suite@.tests, places(n as nat)) =~= suite@.tests);
    }
    reorder(suite, &order)
}

/// A step of setting up fault injection.
#[derive(Debug, Clone, Copy, PartialEq, Eq, Structural)]
pub enum FaultStep {
    /// Ask whether the user of the target is root.
    AskRoot,
    /// Ask whether the kernel supports fault injection.
    AskEnabled,
    /// Set up fault injection.
    Setup,
    /// Done, with this warning, if any.
    Done(Option<FaultWarning>),
}

/// Why fault injection is not in force.
#[derive(Debug, Clone, Copy, PartialEq, Eq, Structural)]
pub enum FaultWarning {
    /// The user is not root.
    NotRoot,
    /// The kernel rejected it.
    Refused,
    /// The kernel does not support it.
    NotEnabled,
}

impl FaultWarning {
    /// Text of the warning.
    pub fn text(self) -> (r: &'static str)
        ensures
            r@ == (match self {
                FaultWarning::NotRoot => "run as root to use kernel fault injection"@,
                FaultWarning::Refused => "can't setup kernel fault injection"@,
                FaultWarning::NotEnabled => "fault injection is not enabled. running tests normally"@,
            }),
    {
        match self {
            FaultWarning::NotRoot => "run as root to use kernel fault injection",
            FaultWarning::Refused => "can't setup kernel fault injection",
            FaultWarning::NotEnabled => "fault injection is not enabled. running tests normally",
        }
    }
}

/// Step that follows, given the reply to the question of this step, `None`
/// where it failed. Resetting fault injection, which is a probability of zero,
/// warns of nothing but a refusal.
pub open spec fn fault_after(step: FaultStep, reply: Option<bool>, prob: u32) -> FaultStep {
    match step {
        FaultStep::AskRoot => if reply == Some(true) {
            FaultStep::AskEnabled
        } else if reply == Some(false) && prob != 0 {
            FaultStep::Done(Some(FaultWarning::NotRoot))
        } else {
            FaultStep::Done(None)
        },
        FaultStep::AskEnabled => if reply == Some(true) {
            FaultStep::Setup
        } else if prob != 0 {
            FaultStep::Done(Some(FaultWarning::NotEnabled))
        } else {
            FaultStep::Done(None)
        },
        FaultStep::Setup => if reply is None {
            FaultStep::Done(Some(FaultWarning::Refused))
        } else {
            FaultStep::Done(None)
        },
        FaultStep::Done(w) => FaultStep::Done(w),
    }
}

/// Go on with setting up fault injection.
pub fn fault_next(step: FaultStep, reply: Option<bool>, prob: u32) -> (r: FaultStep)
    ensures
        r == fault_after(step, reply, prob),
{
    match step {
        FaultStep::AskRoot => match reply {
            Some(true) => FaultStep::AskEnabled,
            Some(false) => {
                if prob != 0 {
                    FaultStep::Done(Some(FaultWarning::NotRoot))
                } else {
                    FaultStep::Done(None)
                }
            },
            None => FaultStep::Done(None),
        },
        FaultStep::AskEnabled => match reply {
            Some(true) => FaultStep::Setup,
            _ => {
                if prob != 0 {
                    FaultStep::Done(Some(FaultWarning::NotEnabled))
                } else {
                    FaultStep::Done(None)
                }
            },
        },
        FaultStep::Setup => {
            if reply.is_none() {
                FaultStep::Done(Some(FaultWarning::Refused))
            } else {
                FaultStep::Done(None)
            }
        },
        FaultStep::Done(w) => FaultStep::Done(w),
    }
}

/// A step of a run.
#[derive(Debug)]
pub enum RunStep {
    /// Fire an event.
    Fire {
        /// Name of the event.
        event: &'static str,
        /// Its message.
        message: String,
    },
    /// Start the target.
    StartSut,
    /// Run a command.
    Command(String),
    /// Set up fault injection.
    Fault {
        /// Probability.
        prob: u32,
        /// Interval.
        interval: u32,
    },
    /// Find the suites, and select and repeat their tests.
    Select,
    /// Put the tests of each suite in a random order.
    Randomize,
    /// List the tests.
    DryRun,
    /// Execute the tests: once, or over and over for a number of seconds,
    /// given as the bits of a double.
    Schedule(Option<u64>),
    /// Save a report.
    Export(String),
    /// Stop the scheduler and the target.
    Stop,
}

/// What a step of a run does.
pub enum RunView {
    /// Fire an event.
    Fire(Seq<char>, Seq<char>),
    /// Start the target.
    StartSut,
    /// Run a command.
    Command(Seq<char>),
    /// Set up fault injection.
    Fault(u32, u32),
    /// Find the suites, and select and repeat their tests.
    Select,
    /// Put the tests of each suite in a random order.
    Randomize,
    /// List the tests.
    DryRun,
    /// Execute the tests.
    Schedule(Option<u64>),
    /// Save a report.
    Export(Seq<char>),
    /// Stop the scheduler and the target.
    Stop,
}

impl View for RunStep {
    type V = RunView;

    open spec fn view(&self) -> RunView {
        match *self {
            RunStep::Fire { event, message } => RunView::Fire(event@, message@),
            RunStep::StartSut => RunView::StartSut,
            RunStep::Command(c) => RunView::Command(c@),
            RunStep::Fault { prob, interval } => RunView::Fault(prob, interval),
            RunStep::Select => RunView::Select,
            RunStep::Randomize => RunView::Randomize,
            RunStep::DryRun => RunView::DryRun,
            RunStep::Schedule(runtime) => RunView::Schedule(runtime),
            RunStep::Export(target) => RunView::Export(target@),
            RunStep::Stop => RunView::Stop,
        }
    }
}

/// What the steps of a run do.
pub open spec fn run_views(v: Seq<RunStep>) -> Seq<RunView> {
    v.map_values(|s: RunStep| s@)
}

/// One step where `wanted`, else none.
pub open spec fn step_if(wanted: bool, step: RunView) -> Seq<RunView> {
    if wanted {
        seq![step]
    } else {
        Seq::empty()
    }
}

/// Steps that announce a run.
pub open spec fn opening(o: RunOptions, tmpdir: Seq<char>, parallel: bool) -> Seq<RunView> {
    seq![
        RunView::Fire(
            "session_started"@,
            text::decimal_text(o.suites@.len()) + "\n"@ + tmpdir,
        ),
    ] + step_if(
        !parallel,
        RunView::Fire("session_warning"@, "SUT doesn't support parallel execution"@),
    ) + match o.command {
        Some(c) => step_if(o.dry_run, RunView::Fire("session_dry_run_command"@, c@)),
        None => Seq::empty(),
    }
}

/// Steps that run before the suites: the target starts unless nothing is to
/// run on it, then the command runs, and fault injection is set up.
pub open spec fn preparation(o: RunOptions) -> Seq<RunView> {
    step_if(o.suites@.len() > 0 || !o.dry_run, RunView::StartSut) + match o.command {
        Some(c) => step_if(!o.dry_run, RunView::Command(c@)),
        None => Seq::empty(),
    } + step_if(
        !o.dry_run && o.fault_prob != 0,
        RunView::Fault(o.fault_prob, o.fault_interval),
    )
}

/// Time for which suites run over and over, if any: it is finite and more
/// than zero.
pub open spec fn time_to_run(runtime: u64) -> Option<u64> {
    if test_sched::in_force(runtime) {
        Some(runtime)
    } else {
        None
    }
}

/// Steps that run the suites, where there are any.
pub open spec fn execution(o: RunOptions) -> Seq<RunView> {
    if o.suites@.len() == 0 {
        Seq::empty()
    } else {
        seq![RunView::Select] + step_if(o.randomize, RunView::Randomize) + step_if(
            o.dry_run,
            RunView::DryRun,
        ) + step_if(!o.dry_run, RunView::Schedule(time_to_run(o.runtime)))
    }
}

/// All steps of a run.
pub open spec fn run_script(o: RunOptions, tmpdir: Seq<char>, parallel: bool) -> Seq<RunView> {
    opening(o, tmpdir, parallel) + preparation(o) + execution(o)
}

/// A dry run executes no command and no test.
pub proof fn dry_run_executes_nothing(o: RunOptions, tmpdir: Seq<char>, parallel: bool)
    requires
        o.dry_run,
    ensures
        forall|i: int|
            0 <= i < run_script(o, tmpdir, parallel).len() ==> {
                let step = #[trigger] run_script(o, tmpdir, parallel)[i];
                &&& !(step is Command)
                &&& !(step is Fault)
                &&& !(step is Schedule)
            },
{
}

/// Suites that are not run dry are scheduled exactly once, as the last step:
/// over and over where a runtime is in force, else for one pass. A runtime of
/// whole seconds is in force unless it is zero.
pub proof fn suites_are_scheduled_once(
    o: RunOptions,
    tmpdir: Seq<char>,
    parallel: bool,
    seconds: u64,
)
    requires
        o.suites@.len() > 0,
        !o.dry_run,
    ensures
        ({
            let script = run_script(o, tmpdir, parallel);
            let runtime = if test_sched::in_force(o.runtime) {
                Some(o.runtime)
            } else {
                None
            };
            &&& script.last() == RunView::Schedule(runtime)
            &&& forall|i: int| 0 <= i < script.len() - 1 ==> !(#[trigger] script[i] is Schedule)
        }),
        seconds < dict::EXACT_LIMIT && o.runtime == dict::nearest_double(seconds as int) ==> {
            &&& test_sched::in_force(o.runtime) == (seconds > 0)
            &&& dict::whole_part(o.runtime) == seconds
        },
{
    if seconds < dict::EXACT_LIMIT {
        dict::exact_double_is_the_number(seconds as nat);
    }
}

fn fire(event: &'static str, message: &str) -> (s: RunStep)
    ensures
        s@ == RunView::Fire(event@, message@),
{
    RunStep::Fire { event, message: message.to_owned() }
}

fn add_if(v: &mut Vec<RunStep>, wanted: bool, step: RunStep)
    ensures
        run_views(final(v)@) == run_views(old(v)@) + step_if(wanted, step@),
{
    let ghost before = v@;
    if wanted {
        v.push(step);
    }
    assert(run_views(v@) =~= run_views(before) + step_if(wanted, step@));
}

fn add_opening(v: &mut Vec<RunStep>, o: &RunOptions, tmpdir: &str, parallel: bool)
    ensures
        run_views(final(v)@) == run_views(old(v)@) + opening(*o, tmpdir@, parallel),
{
    let ghost before = run_views(v@);
    let count = text::decimal(o.suites.len() as u64);
    let started = text::cat3(count.as_str(), "\n", tmpdir);
    add_if(v, true, fire("session_started", started.as_str()));
    add_if(v, !parallel, fire("session_warning", "SUT doesn't support parallel execution"));
    match &o.command {
        Some(c) => add_if(v, o.dry_run, fire("session_dry_run_command", c.as_str())),
        None => {},
    }
    assert(run_views(v@) =~= before + opening(*o, tmpdir@, parallel));
}

fn add_preparation(v: &mut Vec<RunStep>, o: &RunOptions)
    ensures
        run_views(final(v)@) == run_views(old(v)@) + preparation(*o),
{
    let ghost before = run_views(v@);
    add_if(v, o.suites.len() > 0 || !o.dry_run, RunStep::StartSut);
    match &o.command {
        Some(c) => add_if(v, !o.dry_run, RunStep::Command(c.clone())),
        None => {},
    }
    add_if(
        v,
        !o.dry_run && o.fault_prob != 0,
        RunStep::Fault { prob: o.fault_prob, interval: o.fault_interval },
    );
    assert(run_views(v@) =~= before + preparation(*o));
}

fn add_execution(v: &mut Vec<RunStep>, o: &RunOptions)
    ensures
        run_views(final(v)@) == run_views(old(v)@) + execution(*o),
{
    let ghost before = run_views(v@);
    if o.suites.len() > 0 {
        add_if(v, true, RunStep::Select);
        add_if(v, o.randomize, RunStep::Randomize);
        add_if(v, o.dry_run, RunStep::DryRun);
        let runtime: Option<u64> = if test_sched::clamp_timeout(o.runtime) == 0 {
            None
        } else {
            Some(o.runtime)
        };
        add_if(v, !o.dry_run, RunStep::Schedule(runtime));
    }
    assert(run_views(v@) =~= before + execution(*o));
}

/// Plan a run, given the temporary directory and whether the target runs
/// commands in parallel.
pub fn run_plan(o: &RunOptions, tmpdir: &str, parallel: bool) -> (v: Vec<RunStep>)
    ensures
        run_views(v@) == run_script(*o, tmpdir@, parallel),
{
    let mut v: Vec<RunStep> = Vec::new();
    add_opening(&mut v, o, tmpdir, parallel);
    add_preparation(&mut v, o);
    add_execution(&mut v, o);
    assert(run_views(v@) =~= run_script(*o, tmpdir@, parallel));
    v
}

/// Names of the tests of a suite.
pub open spec fn test_names(tests: Seq<TestView>) -> Seq<Seq<char>> {
    tests.map_values(|t: TestView| t.name)
}

/// Names of all tests, in order.
pub open spec fn all_names(suites: Seq<SuiteView>) -> Seq<Seq<char>>
    decreases suites.len(),
{
    if suites.len() == 0 {
        Seq::empty()
    } else {
        all_names(suites.drop_last()) + test_names(suites.last().tests)
    }
}

/// List of all tests, one on a line.
pub fn dry_run_list(suites: &Vec<Suite>) -> (r: String)
    ensures
        r@ == text::joined(all_names(suite_views(suites@)), "\n"@),
{
    broadcast use text::texts_push;

    let ghost all = suite_views(suites@);
    let mut names: Vec<String> = Vec::new();
    let mut k: usize = 0;
    assert(text::texts(names@) =~= all_names(all.take(0)));
    while k < suites.len()
        invariant
            k <= suites@.len(),
            all == suite_views(suites@),
            text::texts(names@) == all_names(all.take(k as int)),
        decreases suites@.len() - k,
    {
        let ghost before = all_names(all.take(k as int));
        let ghost more = test_names(suites@[k as int]@.tests);
        let tests = suites[k].tests();
        let mut i: usize = 0;
        assert(more.len() == tests@.len());
        assert(text::texts(names@) =~= before + more.take(0));
        while i < tests.len()
            invariant
                k < suites@.len(),
                i <= tests@.len(),
                more == test_names(data::test_views(tests@)),
                more.len() == tests@.len(),
                text::texts(names@) == before + more.take(i as int),
            decreases tests@.len() - i,
        {
            proof {
                assert(more[i as int] == tests@[i as int]@.name);
                assert(before + more.take(i + 1) =~= (before + more.take(i as int)).push(
                    more[i as int],
                ));
            }
            names.push(tests[i].name().to_owned());
            i = i + 1;
        }
        proof {
            assert(more.take(more.len() as int) =~= more);
            assert(all.take(k + 1).drop_last() =~= all.take(k as int));
            assert(all.take(k + 1).last() == suites@[k as int]@);
        }
        k = k + 1;
    }
    assert(all.take(all.len() as int) =~= all);
    text::join(&names, "\n")
}

/// Message of the event for a command that has ended, given what it came to;
/// an error where it gave nothing.
pub fn command_report(command: &str, full_command: &str, row: &Option<CmdResult>) -> (r: Result<
    String,
    KirkError,
>)
    ensures
        match *row {
            None => r matches Err(e) && e@ == ErrorView::Session(
                "can't execute command '"@ + full_command@ + "'"@,
            ),
            Some(c) => r matches Ok(m) && m@ == command@ + "\n"@ + c.stdout@ + "\n"@
                + text::signed_text(c.returncode as int),
        },
{
    match row {
        None => Err(
            KirkError::Session(text::cat3("can't execute command '", full_command, "'")),
        ),
        Some(c) => {
            let code = text::signed_decimal(c.returncode as i64);
            Ok(text::cat5(command, "\n", c.stdout.as_str(), "\n", code.as_str()))
        },
    }
}

/// Error of a command that took too long.
pub fn command_timeout(command: &str) -> (e: KirkError)
    ensures
        e@ == ErrorView::Session("command timeout: "@ + text::quoted_text(command@)),
{
    let shown = text::quoted(command);
    KirkError::Session(text::cat2("command timeout: ", shown.as_str()))
}

/// Path of a file in a folder.
pub open spec fn file_in(folder: Seq<char>, name: Seq<char>) -> Seq<char> {
    if folder.last() == '/' {
        folder + name
    } else {
        folder + "/"@ + name
    }
}

fn path_in(folder: &str, name: &str) -> (r: String)
    requires
        folder@.len() > 0,
    ensures
        r@ == file_in(folder@, name@),
{
    let chars = text::chars_of(folder);
    if chars[chars.len() - 1] == '/' {
        text::cat2(folder, name)
    } else {
        text::cat3(folder, "/", name)
    }
}

/// Files that results are written to: one in the temporary directory, and the
/// report. Without results nothing is written.
pub open spec fn export_targets(
    count: nat,
    tmpdir: Seq<char>,
    report: Option<Seq<char>>,
) -> Seq<Seq<char>> {
    if count == 0 {
        Seq::empty()
    } else {
        (if tmpdir.len() > 0 {
            seq![file_in(tmpdir, "results.json"@)]
        } else {
            Seq::empty()
        }) + match given(report) {
            Some(path) => seq![path],
            None => Seq::empty(),
        }
    }
}

/// Files that results are written to.
pub fn report_targets(count: usize, tmpdir: &str, report: Option<&str>) -> (r: Vec<String>)
    ensures
        text::texts(r@) == export_targets(count as nat, tmpdir@, text::opt_str(report)),
{
    broadcast use text::texts_push;

    let mut r: Vec<String> = Vec::new();
    assert(text::texts(r@) =~= Seq::<Seq<char>>::empty());
    if count > 0 {
        if !tmpdir.is_empty() {
            r.push(path_in(tmpdir, "results.json"));
        }
        match given_text(report) {
            Some(path) => r.push(path.to_owned()),
            None => {},
        }
    }
    assert(text::texts(r@) =~= export_targets(count as nat, tmpdir@, text::opt_str(report)));
    r
}

/// Steps that save the reports.
pub open spec fn exports(targets: Seq<Seq<char>>) -> Seq<RunView> {
    targets.map_values(|t: Seq<char>| RunView::Export(t))
}

/// Steps that end a run: its error is told, fault injection is reset, the
/// results that there are get saved, and the target is stopped.
pub open spec fn close_script(
    o: RunOptions,
    tmpdir: Seq<char>,
    error: Option<Seq<char>>,
    count: nat,
) -> Seq<RunView> {
    (match error {
        Some(e) => seq![RunView::Fire("session_error"@, e)],
        None => Seq::empty(),
    }) + step_if(o.fault_prob != 0 && !o.dry_run, RunView::Fault(0, 1)) + exports(
        export_targets(count, tmpdir, text::opt_text(o.report_path)),
    ) + seq![
        RunView::Stop,
        RunView::Fire("session_completed"@, text::decimal_text(count)),
    ]
}

/// However a run ends, the target is stopped and the end is announced, in this
/// order and last.
pub proof fn runs_stop_the_target(
    o: RunOptions,
    tmpdir: Seq<char>,
    error: Option<Seq<char>>,
    count: nat,
)
    ensures
        ({
            let script = close_script(o, tmpdir, error, count);
            &&& script.len() >= 2
            &&& script[script.len() - 2] is Stop
            &&& script.last() == RunView::Fire("session_completed"@, text::decimal_text(count))
        }),
{
}

/// The results that there are get saved before the target is stopped, also
/// where the run failed.
pub proof fn partial_results_are_saved(
    o: RunOptions,
    tmpdir: Seq<char>,
    error: Option<Seq<char>>,
    count: nat,
)
    requires
        count > 0,
    ensures
        ({
            let script = close_script(o, tmpdir, error, count).drop_last().drop_last();
            &&& tmpdir.len() > 0 ==> script.contains(RunView::Export(
                file_in(tmpdir, "results.json"@),
            ))
            &&& given(text::opt_text(o.report_path)) matches Some(path) ==> script.contains(
                RunView::Export(path),
            )
        }),
{
    let script = close_script(o, tmpdir, error, count).drop_last().drop_last();
    let targets = export_targets(count, tmpdir, text::opt_text(o.report_path));
    let front = script.len() - targets.len();
    assert forall|i: int| 0 <= i < targets.len() implies script[front + i] == RunView::Export(
        targets[i],
    ) by {}
    if tmpdir.len() > 0 {
        assert(targets[0] == file_in(tmpdir, "results.json"@));
        assert(script[front] == RunView::Export(targets[0]));
    }
    if given(text::opt_text(o.report_path)) is Some {
        assert(script[front + targets.len() - 1] == RunView::Export(targets.last()));
    }
}

/// Plan the end of a run, given the error to tell and the number of suites
/// with results.
pub fn close_plan(o: &RunOptions, tmpdir: &str, error: Option<&str>, count: usize) -> (v: Vec<
    RunStep,
>)
    ensures
        run_views(v@) == close_script(*o, tmpdir@, text::opt_str(error), count as nat),
{
    let mut v: Vec<RunStep> = Vec::new();
    match error {
        Some(e) => add_if(&mut v, true, fire("session_error", e)),
        None => {},
    }
    add_if(&mut v, o.fault_prob != 0 && !o.dry_run, RunStep::Fault { prob: 0, interval: 1 });
    let targets = report_targets(count, tmpdir, text::borrow_opt(&o.report_path));
    add_exports(&mut v, &targets);
    v.push(RunStep::Stop);
    let total = text::decimal(count as u64);
    v.push(fire("session_completed", total.as_str()));
    assert(run_views(v@) =~= close_script(*o, tmpdir@, text::opt_str(error), count as nat));
    v
}

fn add_exports(v: &mut Vec<RunStep>, targets: &Vec<String>)
    ensures
        run_views(final(v)@) == run_views(old(v)@) + exports(text::texts(targets@)),
{
    let ghost before = run_views(v@);
    let ghost all = exports(text::texts(targets@));
    let mut i: usize = 0;
    while i < targets.len()
        invariant
            i <= targets@.len(),
            all == exports(text::texts(targets@)),
            run_views(v@) =~= before + all.take(i as int),
        decreases targets@.len() - i,
    {
        let ghost had = v@;
        let step = RunStep::Export(targets[i].clone());
        v.push(step);
        assert(run_views(v@) =~= run_views(had).push(step@));
        assert(step@ == all[i as int]);
        i = i + 1;
    }
    assert(all.take(all.len() as int) =~= all);
}

/// How far a plan has come.
#[derive(Debug)]
pub struct Follow {
    failure: Option<KirkError>,
    over: bool,
}

/// How far a plan has come.
#[verifier::ext_equal]
pub struct FollowView {
    /// Failure that counts.
    pub failure: Option<ErrorView>,
    /// Whether nothing more is done.
    pub over: bool,
}

impl View for Follow {
    type V = FollowView;

    closed spec fn view(&self) -> FollowView {
        FollowView {
            failure: match self.failure {
                Some(e) => Some(e@),
                None => None,
            },
            over: self.over,
        }
    }
}

/// Start of a plan.
pub open spec fn plan_start() -> FollowView {
    FollowView { failure: None, over: false }
}

/// Whether a step is still due: none is once a plan is over, and no report is
/// once one failed.
pub open spec fn is_due(s: FollowView, step: RunView) -> bool {
    !s.over && !(step is Export && s.failure is Some)
}

/// A plan after a step that was due, given its failure if it failed. A report
/// that fails leaves the other steps due; any other failure ends the plan.
pub open spec fn step_done(s: FollowView, step: RunView, failure: Option<ErrorView>) -> FollowView {
    match failure {
        None => s,
        Some(e) => FollowView { failure: Some(e), over: !(step is Export) },
    }
}

/// View of the failure of a step.
pub open spec fn failure_of(r: Result<(), KirkError>) -> Option<ErrorView> {
    match r {
        Ok(_) => None,
        Err(e) => Some(e@),
    }
}

impl Follow {
    /// Start a plan.
    pub fn new() -> (r: Self)
        ensures
            r@ == plan_start(),
    {
        Follow { failure: None, over: false }
    }

    /// Whether a step is still due.
    pub fn due(&self, step: &RunStep) -> (r: bool)
        ensures
            r == is_due(self@, step@),
    {
        if self.over {
            return false;
        }
        match step {
            RunStep::Export(_) => self.failure.is_none(),
            _ => true,
        }
    }

    /// Take in what a step that was due came to. Gives the message that tells
    /// of a report that failed.
    pub fn done(&mut self, step: &RunStep, outcome: Result<(), KirkError>) -> (message: Option<
        String,
    >)
        requires
            is_due(old(self)@, step@),
        ensures
            final(self)@ == step_done(old(self)@, step@, failure_of(outcome)),
            match outcome {
                Err(e) if step@ is Export => message matches Some(m) && m@ == short_text(e@),
                _ => message is None,
            },
    {
        match outcome {
            Ok(_) => None,
            Err(e) => {
                let message = match step {
                    RunStep::Export(_) => Some(short_error(&e)),
                    _ => None,
                };
                self.over = message.is_none();
                self.failure = Some(e);
                message
            },
        }
    }

    /// What the plan came to.
    pub fn outcome(self) -> (r: Result<(), KirkError>)
        ensures
            failure_of(r) == self@.failure,
    {
        match self.failure {
            Some(e) => Err(e),
            None => Ok(()),
        }
    }
}

/// What a run comes to: a report that could not be saved counts before what
/// the run itself came to.
pub fn run_outcome(run: Result<(), KirkError>, export: Option<KirkError>) -> (r: Result<
    (),
    KirkError,
>)
    ensures
        r == (match export {
            Some(e) => Err::<(), KirkError>(e),
            None => run,
        }),
{
    match export {
        Some(e) => Err(e),
        None => run,
    }
}

/// A plan after its steps, given what each of them comes to if it is done.
pub open spec fn followed(plan: Seq<RunView>, failures: Seq<Option<ErrorView>>) -> FollowView
    decreases plan.len(),
{
    if plan.len() == 0 {
        plan_start()
    } else {
        let before = followed(plan.drop_last(), failures);
        if is_due(before, plan.last()) {
            step_done(before, plan.last(), failures[plan.len() - 1])
        } else {
            before
        }
    }
}

/// Whether the step at `i` of a plan is done.
pub open spec fn is_done_at(
    plan: Seq<RunView>,
    failures: Seq<Option<ErrorView>>,
    i: int,
) -> bool {
    is_due(followed(plan.take(i), failures), plan[i])
}

/// A step that fails and is no report ends its plan: the failure is what the
/// plan comes to, and no later step is done.
pub proof fn failed_step_ends_the_plan(
    plan: Seq<RunView>,
    failures: Seq<Option<ErrorView>>,
    i: int,
)
    requires
        0 <= i < plan.len(),
        is_done_at(plan, failures, i),
        !(plan[i] is Export),
        failures[i] is Some,
    ensures
        followed(plan, failures).failure == failures[i],
        followed(plan, failures).over,
        forall|j: int| i < j < plan.len() ==> !#[trigger] is_done_at(plan, failures, j),
    decreases plan.len(),
{
    assert(plan.take(plan.len() as int) =~= plan);
    stays_over(plan, failures, i, plan.len() as int);
    assert forall|j: int| i < j < plan.len() implies !#[trigger] is_done_at(plan, failures, j) by {
        stays_over(plan, failures, i, j);
    }
}

proof fn stays_over(plan: Seq<RunView>, failures: Seq<Option<ErrorView>>, i: int, j: int)
    requires
        0 <= i < j <= plan.len(),
        is_done_at(plan, failures, i),
        !(plan[i] is Export),
        failures[i] is Some,
    ensures
        followed(plan.take(j), failures).failure == failures[i],
        followed(plan.take(j), failures).over,
    decreases j,
{
    assert(plan.take(j).drop_last() =~= plan.take(j - 1));
    if j > i + 1 {
        stays_over(plan, failures, i, j - 1);
    }
}

/// Where only reports can fail, every other step is done, and the plan comes
/// to the failure of the first report that fails, behind which no report is
/// saved.
pub proof fn failed_reports_leave_the_rest(
    plan: Seq<RunView>,
    failures: Seq<Option<ErrorView>>,
)
    requires
        failures.len() == plan.len(),
        forall|i: int|
            0 <= i < plan.len() && failures[i] is Some ==> (#[trigger] plan[i]) is Export,
    ensures
        forall|i: int|
            0 <= i < plan.len() ==> (#[trigger] is_done_at(plan, failures, i) <==> !(plan[i]
                is Export) || forall|j: int| 0 <= j < i ==> failures[j] is None),
        match followed(plan, failures).failure {
            None => forall|i: int| 0 <= i < plan.len() ==> failures[i] is None,
            Some(e) => exists|i: int|
                0 <= i < plan.len() && #[trigger] failures[i] == Some(e) && forall|j: int|
                    0 <= j < i ==> failures[j] is None,
        },
{
    assert(plan.take(plan.len() as int) =~= plan);
    first_failure(plan, failures, plan.len() as int);
    assert forall|i: int| 0 <= i < plan.len() implies (#[trigger] is_done_at(plan, failures, i)
        <==> !(plan[i] is Export) || forall|j: int| 0 <= j < i ==> failures[j] is None) by {
        first_failure(plan, failures, i);
    }
}

proof fn first_failure(plan: Seq<RunView>, failures: Seq<Option<ErrorView>>, n: int)
    requires
        0 <= n <= plan.len(),
        failures.len() == plan.len(),
        forall|i: int|
            0 <= i < plan.len() && failures[i] is Some ==> (#[trigger] plan[i]) is Export,
    ensures
        !followed(plan.take(n), failures).over,
        match followed(plan.take(n), failures).failure {
            None => forall|i: int| 0 <= i < n ==> failures[i] is None,
            Some(e) => exists|i: int|
                0 <= i < n && #[trigger] failures[i] == Some(e) && forall|j: int|
                    0 <= j < i ==> failures[j] is None,
        },
    decreases n,
{
    if n > 0 {
        first_failure(plan, failures, n - 1);
        assert(plan.take(n).drop_last() =~= plan.take(n - 1));
        assert(plan.take(n).last() == plan[n - 1]);
        let before = followed(plan.take(n - 1), failures);
        if before.failure is None && failures[n - 1] is Some {
            assert(plan[n - 1] is Export);
            assert(is_due(before, plan[n - 1]));
        }
    }
}

/// Suites that run over and over, round by round.
#[derive(Debug)]
pub struct Rounds {
    suites: Vec<Suite>,
    count: usize,
    over: bool,
}

/// How far the rounds have come.
#[verifier::ext_equal]
pub struct RoundsView {
    /// Suites of each round.
    pub suites: Seq<SuiteView>,
    /// Number of the next round.
    pub count: nat,
    /// Whether there is no further round.
    pub over: bool,
}

impl View for Rounds {
    type V = RoundsView;

    closed spec fn view(&self) -> RoundsView {
        RoundsView { suites: suite_views(self.suites@), count: self.count as nat, over: self.over }
    }
}

impl Rounds {
    /// Start with the first round.
    pub fn new(suites: Vec<Suite>) -> (r: Self)
        ensures
            r@ == (RoundsView { suites: suite_views(suites@), count: 0, over: false }),
    {
        Rounds { suites, count: 0, over: false }
    }

    /// Suites of the next round, under names that tell the rounds apart; none
    /// where there is no further round or a stop was asked for.
    pub fn round(&self, stopping: bool) -> (r: Option<Vec<Suite>>)
        ensures
            if self@.over || stopping {
                r is None
            } else {
                &&& r matches Some(suites)
                &&& suite_views(suites@) == self@.suites.map_values(
                    |s: SuiteView| repeated(s, self@.count),
                )
            },
    {
        if self.over || stopping {
            None
        } else {
            Some(round_suites(&self.suites, self.count))
        }
    }

    /// A round has ended: an error ends the rounds, and so does a scheduler
    /// that was stopped.
    pub fn ended(&mut self, failed: bool, stopped: bool)
        requires
            old(self)@.count < usize::MAX,
        ensures
            final(self)@ == if failed || stopped {
                RoundsView { over: true, ..old(self)@ }
            } else {
                RoundsView { count: old(self)@.count + 1, ..old(self)@ }
            },
    {
        if failed || stopped {
            self.over = true;
        } else {
            self.count = self.count + 1;
        }
    }
}

/// Short description of an error for events: kernel and other errors carry
/// output of the target, which is not shown.
pub open spec fn short_text(e: ErrorView) -> Seq<char> {
    if e is Session || e is Scheduler || e is Framework || e is Communication || e is Sut {
        errors::error_text(e)
    } else {
        "session failed"@
    }
}

/// Short description of an error for events.
pub fn short_error(e: &KirkError) -> (r: String)
    ensures
        r@ == short_text(e@),
{
    let shown = match e {
        KirkError::Session(_) => true,
        KirkError::Scheduler(_) => true,
        KirkError::Framework(_) => true,
        KirkError::Communication(_) => true,
        KirkError::Sut(_) => true,
        _ => false,
    };
    if shown {
        e.to_string()
    } else {
        text::owned("session failed")
    }
}

/// A session.
#[derive(Debug)]
pub struct Session {
    tmpdir: String,
    config: SessionConfig,
    stopping: bool,
    results: Vec<SuiteResults>,
}

/// What a session holds.
#[verifier::ext_equal]
pub struct SessionView {
    /// Temporary directory.
    pub tmpdir: Seq<char>,
    /// Parameters.
    pub config: SessionConfig,
    /// Whether a stop was asked for.
    pub stopping: bool,
    /// Results that were not exported yet.
    pub results: Seq<SuiteResultsView>,
}

impl View for Session {
    type V = SessionView;

    closed spec fn view(&self) -> SessionView {
        SessionView {
            tmpdir: self.tmpdir@,
            config: self.config,
            stopping: self.stopping,
            results: suite_sched::suite_results_views(self.results@),
        }
    }
}

impl Session {
    /// Create a session.
    pub fn new(tmpdir: &str, config: SessionConfig) -> (r: Self)
        ensures
            r@ == (SessionView {
                tmpdir: tmpdir@,
                config,
                stopping: false,
                results: Seq::empty(),
            }),
    {
        let r = Session { tmpdir: tmpdir.to_owned(), config, stopping: false, results: Vec::new() };
        assert(r@.results =~= Seq::<SuiteResultsView>::empty());
        r
    }

    /// Temporary directory of the session.
    pub fn tmpdir(&self) -> (r: &str)
        ensures
            r@ == self@.tmpdir,
    {
        self.tmpdir.as_str()
    }

    /// Parameters of the session.
    pub fn config(&self) -> (r: SessionConfig)
        ensures
            r == self@.config,
    {
        self.config
    }

    /// Ask for a stop. Tells whether that is the first one.
    pub fn stop(&mut self) -> (first: bool)
        ensures
            first == !old(self)@.stopping,
            final(self)@ == (SessionView { stopping: true, ..old(self)@ }),
    {
        let first = !self.stopping;
        self.stopping = true;
        first
    }

    /// The session has stopped.
    pub fn stop_done(&mut self)
        ensures
            final(self)@ == (SessionView { stopping: false, ..old(self)@ }),
    {
        self.stopping = false;
    }

    /// Whether a stop was asked for.
    pub fn stopping(&self) -> (r: bool)
        ensures
            r == self@.stopping,
    {
        self.stopping
    }

    /// Message of the event for a run that ended with an error, unless a stop
    /// was asked for.
    pub fn error_message(&self, outcome: &Result<(), KirkError>) -> (r: Option<String>)
        ensures
            text::opt_text(r) == (match *outcome {
                Ok(_) => None,
                Err(e) => if self@.stopping {
                    None
                } else {
                    Some(short_text(e@))
                },
            }),
    {
        match outcome {
            Ok(_) => None,
            Err(e) => {
                if self.stopping {
                    None
                } else {
                    Some(short_error(e))
                }
            },
        }
    }

    /// Add the results of a schedule.
    pub fn collect(&mut self, fresh: Vec<SuiteResults>)
        ensures
            final(self)@ == (SessionView {
                results: old(self)@.results + suite_sched::suite_results_views(fresh@),
                ..old(self)@
            }),
    {
        let mut fresh = fresh;
        let ghost had = self.results@;
        let ghost more = fresh@;
        self.results.append(&mut fresh);
        assert(self.results@ =~= had + more);
        assert(suite_sched::suite_results_views(self.results@)
            =~= suite_sched::suite_results_views(had) + suite_sched::suite_results_views(more));
    }

    /// Take the results, to export them.
    pub fn take_results(&mut self) -> (r: Vec<SuiteResults>)
        ensures
            suite_sched::suite_results_views(r@) == old(self)@.results,
            final(self)@ == (SessionView { results: Seq::empty(), ..old(self)@ }),
    {
        let mut r: Vec<SuiteResults> = Vec::new();
        std::mem::swap(&mut r, &mut self.results);
        assert(self@.results =~= Seq::<SuiteResultsView>::empty());
        r
    }
}

/// Fault injection is set up only by root on a kernel that supports it. Who
/// asks for it is told why it is not in force; resetting it is silent unless
/// the kernel refuses. Setting it up ends after at most three questions.
pub proof fn faults_are_set_up_or_told(reply: Option<bool>, prob: u32, step: FaultStep)
    ensures
        fault_after(FaultStep::AskRoot, Some(true), prob) == FaultStep::AskEnabled,
        fault_after(FaultStep::AskEnabled, Some(true), prob) == FaultStep::Setup,
        fault_after(step, reply, prob) == FaultStep::Setup ==> step == FaultStep::AskEnabled
            && reply == Some(true),
        fault_after(step, reply, prob) == FaultStep::AskEnabled ==> step == FaultStep::AskRoot
            && reply == Some(true),
        fault_after(step, reply, prob) != FaultStep::AskRoot || step == FaultStep::AskRoot,
        reply == Some(false) && prob != 0 ==> fault_after(FaultStep::AskRoot, reply, prob)
            == FaultStep::Done(Some(FaultWarning::NotRoot)),
        reply != Some(true) && prob != 0 ==> fault_after(FaultStep::AskEnabled, reply, prob)
            == FaultStep::Done(Some(FaultWarning::NotEnabled)),
        reply != Some(true) && prob == 0 ==> fault_after(FaultStep::AskRoot, reply, prob)
            == FaultStep::Done(None) && fault_after(FaultStep::AskEnabled, reply, prob)
            == FaultStep::Done(None),
        reply is None ==> fault_after(FaultStep::AskRoot, reply, prob) == FaultStep::Done(None),
        reply is None ==> fault_after(FaultStep::Setup, reply, prob) == FaultStep::Done(
            Some(FaultWarning::Refused),
        ),
        reply is Some ==> fault_after(FaultStep::Setup, reply, prob) == FaultStep::Done(None),
        step is Done ==> fault_after(step, reply, prob) == step,
{
}

/// Place of a step among the kinds of steps of a run.
pub open spec fn step_rank(s: RunView) -> int {
    match s {
        RunView::Fire(_, _) => 0,
        RunView::StartSut => 1,
        RunView::Command(_) => 2,
        RunView::Fault(_, _) => 3,
        RunView::Select => 4,
        RunView::Randomize => 5,
        RunView::DryRun => 6,
        RunView::Schedule(_) => 6,
        _ => 7,
    }
}

/// A run announces itself first. Then the target starts, the command runs,
/// fault injection is set up, and tests are selected, shuffled and run or
/// listed: in this order, and none of it twice.
pub proof fn runs_go_step_by_step(
    o: RunOptions,
    tmpdir: Seq<char>,
    parallel: bool,
    i: int,
    j: int,
)
    requires
        0 <= i < j < run_script(o, tmpdir, parallel).len(),
    ensures
        ({
            let script = run_script(o, tmpdir, parallel);
            let (a, b) = (step_rank(script[i]), step_rank(script[j]));
            &&& script[0] == RunView::Fire(
                "session_started"@,
                text::decimal_text(o.suites@.len()) + "\n"@ + tmpdir,
            )
            &&& a <= b <= 6
            &&& b > 0 ==> a < b
        }),
{
    let x = opening(o, tmpdir, parallel);
    let y = preparation(o);
    let z = execution(o);
    let script = run_script(o, tmpdir, parallel);
    opening_ranks(o, tmpdir, parallel);
    preparation_ranks(o);
    execution_ranks(o);
    assert(script[0] == x[0]);
    let n = x.len() as int;
    let m = n + y.len();
    assert(i < n ==> script[i] == x[i]);
    assert(j < n ==> script[j] == x[j]);
    assert(n <= i < m ==> script[i] == y[i - n]);
    assert(n <= j < m ==> script[j] == y[j - n]);
    assert(m <= i ==> script[i] == z[i - m]);
    assert(m <= j ==> script[j] == z[j - m]);
}

proof fn opening_ranks(o: RunOptions, tmpdir: Seq<char>, parallel: bool)
    ensures
        ({
            let x = opening(o, tmpdir, parallel);
            &&& x.len() > 0
            &&& x[0] == RunView::Fire(
                "session_started"@,
                text::decimal_text(o.suites@.len()) + "\n"@ + tmpdir,
            )
            &&& forall|i: int| 0 <= i < x.len() ==> step_rank(#[trigger] x[i]) == 0
        }),
{
}

proof fn preparation_ranks(o: RunOptions)
    ensures
        ({
            let y = preparation(o);
            &&& forall|i: int| 0 <= i < y.len() ==> 1 <= step_rank(#[trigger] y[i]) <= 3
            &&& forall|i: int, j: int|
                0 <= i < j < y.len() ==> step_rank(#[trigger] y[i]) < step_rank(#[trigger] y[j])
        }),
{
}

proof fn execution_ranks(o: RunOptions)
    ensures
        ({
            let z = execution(o);
            &&& forall|i: int| 0 <= i < z.len() ==> 4 <= step_rank(#[trigger] z[i]) <= 6
            &&& forall|i: int, j: int|
                0 <= i < j < z.len() ==> step_rank(#[trigger] z[i]) < step_rank(#[trigger] z[j])
        }),
{
}

/// What is asked for is done: the command, the fault injection, the selection
/// and its shuffling each have their step exactly where the options ask for
/// them, with the values of the options.
pub proof fn runs_do_what_is_asked(o: RunOptions, tmpdir: Seq<char>, parallel: bool, step: RunView)
    ensures
        ({
            let script = run_script(o, tmpdir, parallel);
            let wet = !o.dry_run;
            &&& script.contains(RunView::StartSut) <==> wet || o.suites@.len() > 0
            &&& o.command matches Some(c) ==> wet ==> script.contains(RunView::Command(c@))
            &&& step is Command && script.contains(step) ==> wet && (o.command matches Some(c)
                && step == RunView::Command(c@))
            &&& script.contains(RunView::Fault(o.fault_prob, o.fault_interval)) <==> wet
                && o.fault_prob != 0
            &&& script.contains(RunView::Select) <==> o.suites@.len() > 0
            &&& script.contains(RunView::Randomize) <==> o.suites@.len() > 0 && o.randomize
            &&& script.contains(RunView::DryRun) <==> o.suites@.len() > 0 && o.dry_run
            &&& step is Schedule && script.contains(step) ==> wet && o.suites@.len() > 0
            &&& script.contains(
                RunView::Fire("session_warning"@, "SUT doesn't support parallel execution"@),
            ) <==> !parallel
        }),
{
    reveal_strlit("session_warning");
    reveal_strlit("session_started");
    reveal_strlit("session_dry_run_command");
    assert("session_warning"@.len() == 15);
    assert("session_dry_run_command"@.len() == 23);
    assert("session_warning"@[8] != "session_started"@[8]);
    let a = opening(o, tmpdir, parallel);
    let b = preparation(o);
    let c = execution(o);
    let script = run_script(o, tmpdir, parallel);
    assert forall|s: RunView| #[trigger] script.contains(s) <==> a.contains(s) || b.contains(s)
        || c.contains(s) by {
        parts_hold(a, b, c, s);
    }
    opening_holds(o, tmpdir, parallel);
    preparation_holds(o);
    execution_holds(o);
}

proof fn parts_hold(a: Seq<RunView>, b: Seq<RunView>, c: Seq<RunView>, s: RunView)
    ensures
        (a + b + c).contains(s) <==> a.contains(s) || b.contains(s) || c.contains(s),
{
    let all = a + b + c;
    if all.contains(s) {
        let i = choose|i: int| 0 <= i < all.len() && all[i] == s;
        if i < a.len() {
            assert(a[i] == s);
        } else if i < a.len() + b.len() {
            assert(b[i - a.len()] == s);
        } else {
            assert(c[i - a.len() - b.len()] == s);
        }
    }
    if a.contains(s) {
        let i = choose|i: int| 0 <= i < a.len() && a[i] == s;
        assert(all[i] == s);
    }
    if b.contains(s) {
        let i = choose|i: int| 0 <= i < b.len() && b[i] == s;
        assert(all[a.len() + i] == s);
    }
    if c.contains(s) {
        let i = choose|i: int| 0 <= i < c.len() && c[i] == s;
        assert(all[a.len() + b.len() + i] == s);
    }
}

proof fn one_step_holds(wanted: bool, step: RunView, s: RunView)
    ensures
        step_if(wanted, step).contains(s) <==> wanted && s == step,
{
    if wanted {
        assert(step_if(wanted, step)[0] == step);
    }
}

proof fn opening_holds(o: RunOptions, tmpdir: Seq<char>, parallel: bool)
    ensures
        forall|s: RunView| #[trigger]
            opening(o, tmpdir, parallel).contains(s) ==> s is Fire,
        opening(o, tmpdir, parallel).contains(
            RunView::Fire("session_warning"@, "SUT doesn't support parallel execution"@),
        ) <==> !parallel,
{
    let a = opening(o, tmpdir, parallel);
    let w = RunView::Fire("session_warning"@, "SUT doesn't support parallel execution"@);
    reveal_strlit("session_warning");
    reveal_strlit("session_started");
    reveal_strlit("session_dry_run_command");
    assert("session_warning"@.len() == 15);
    assert("session_dry_run_command"@.len() == 23);
    assert("session_warning"@[8] != "session_started"@[8]);
    if !parallel {
        assert(a[1] == w);
    }
}

proof fn preparation_holds(o: RunOptions)
    ensures
        forall|s: RunView| #[trigger]
            preparation(o).contains(s) ==> s is StartSut || s is Command || s is Fault,
        preparation(o).contains(RunView::StartSut) <==> o.suites@.len() > 0 || !o.dry_run,
        o.command matches Some(c) ==> !o.dry_run ==> preparation(o).contains(
            RunView::Command(c@),
        ),
        forall|s: RunView| #[trigger]
            preparation(o).contains(s) && s is Command ==> !o.dry_run && (o.command matches Some(c)
                && s == RunView::Command(c@)),
        preparation(o).contains(RunView::Fault(o.fault_prob, o.fault_interval)) <==> !o.dry_run
            && o.fault_prob != 0,
{
    let a = step_if(o.suites@.len() > 0 || !o.dry_run, RunView::StartSut);
    let b = match o.command {
        Some(c) => step_if(!o.dry_run, RunView::Command(c@)),
        None => Seq::empty(),
    };
    let f = RunView::Fault(o.fault_prob, o.fault_interval);
    let c = step_if(!o.dry_run && o.fault_prob != 0, f);
    assert forall|s: RunView| #[trigger] preparation(o).contains(s) <==> a.contains(s)
        || b.contains(s) || c.contains(s) by {
        parts_hold(a, b, c, s);
    }
    assert forall|s: RunView| #[trigger] a.contains(s) <==> (o.suites@.len() > 0 || !o.dry_run)
        && s == RunView::StartSut by {
        one_step_holds(o.suites@.len() > 0 || !o.dry_run, RunView::StartSut, s);
    }
    assert forall|s: RunView| #[trigger] c.contains(s) <==> !o.dry_run && o.fault_prob != 0 && s
        == f by {
        one_step_holds(!o.dry_run && o.fault_prob != 0, f, s);
    }
    if let Some(command) = o.command {
        assert forall|s: RunView| #[trigger] b.contains(s) <==> !o.dry_run && s
            == RunView::Command(command@) by {
            one_step_holds(!o.dry_run, RunView::Command(command@), s);
        }
    }
}

proof fn execution_holds(o: RunOptions)
    ensures
        forall|s: RunView| #[trigger]
            execution(o).contains(s) ==> o.suites@.len() > 0 && (s is Select || s is Randomize || s
                is DryRun || (s is Schedule && !o.dry_run)),
        execution(o).contains(RunView::Select) <==> o.suites@.len() > 0,
        execution(o).contains(RunView::Randomize) <==> o.suites@.len() > 0 && o.randomize,
        execution(o).contains(RunView::DryRun) <==> o.suites@.len() > 0 && o.dry_run,
{
    let e = execution(o);
    if o.suites@.len() > 0 {
        assert(e[0] is Select);
        if o.randomize {
            assert(e[1] is Randomize);
        }
        if o.dry_run {
            assert(e.last() is DryRun);
        }
    }
}

/// Errors of the runner itself are told in full; those that may carry output
/// of the target are told without it.
pub proof fn target_output_is_not_told(e: ErrorView)
    ensures
        e is KernelPanic || e is KernelTainted || e is KernelTimeout || e is Ltx || e is Exporter
            || e is Plugin ==> short_text(e) == "session failed"@,
        e matches ErrorView::Session(m) ==> short_text(e) == "session error: "@ + m,
        e matches ErrorView::Scheduler(m) ==> short_text(e) == "scheduler error: "@ + m,
        e matches ErrorView::Framework(m) ==> short_text(e) == "framework error: "@ + m,
        e matches ErrorView::Communication(m) ==> short_text(e) == "communication error: "@ + m,
        e matches ErrorView::Sut(m) ==> short_text(e) == "SUT error: "@ + m,
{
}

/// The names of a dry run are those of all tests, suite by suite and in order,
/// each on a line of its own.
pub proof fn dry_run_names_every_test(front: Seq<SuiteView>, s: SuiteView)
    ensures
        all_names(front.push(s)) == all_names(front) + s.tests.map_values(|t: TestView| t.name),
        all_names(Seq::empty()) == Seq::<Seq<char>>::empty(),
{
    assert(front.push(s).drop_last() =~= front);
    assert(test_names(s.tests) =~= s.tests.map_values(|t: TestView| t.name));
}

/// A line that names no suite or no test is passed over, and the others count
/// in their order.
pub proof fn other_lines_are_passed_over(line: Seq<char>, rest: Seq<Seq<char>>)
    ensures
        (forall|j: int| !(#[trigger] text::occurs_at(line, "::"@, j))) ==> executed_entry(line) is None,
        executed_entry("::"@ + line) is None,
        executed_entry(line) is None ==> executed_entries(seq![line] + rest) == executed_entries(
            rest,
        ),
        executed_entry(line) matches Some(e) ==> executed_entries(seq![line] + rest) == seq![e]
            + executed_entries(rest),
{
    if forall|j: int| !(#[trigger] text::occurs_at(line, "::"@, j)) {
        place_is_none(line, "::"@, 0);
    }
    let s = "::"@ + line;
    assert(s.subrange(0, "::"@.len() as int) =~= "::"@);
    place_is_first(s, "::"@, 0, 0);
    entries_from_the_front(line, rest);
}

proof fn entries_from_the_front(line: Seq<char>, rest: Seq<Seq<char>>)
    ensures
        executed_entry(line) is None ==> executed_entries(seq![line] + rest) == executed_entries(
            rest,
        ),
        executed_entry(line) matches Some(e) ==> executed_entries(seq![line] + rest) == seq![e]
            + executed_entries(rest),
    decreases rest.len(),
{
    let all = seq![line] + rest;
    if rest.len() == 0 {
        assert(all.drop_last() =~= rest);
        assert(all.last() == line);
        if let Some(e) = executed_entry(line) {
            assert(executed_entries(rest).push(e) =~= seq![e] + executed_entries(rest));
        }
    } else {
        entries_from_the_front(line, rest.drop_last());
        assert(all.drop_last() =~= seq![line] + rest.drop_last());
        assert(all.last() == rest.last());
        if let Some(e) = executed_entry(line) {
            assert(executed_entries(all) =~= seq![e] + executed_entries(rest));
        }
    }
}

/// Forcing a suite to run in parallel changes nothing else about its tests.
pub proof fn forced_tests_are_kept(s: SuiteView, i: int)
    requires
        0 <= i < s.tests.len(),
    ensures
        forced(s).name == s.name,
        forced(s).tests.len() == s.tests.len(),
        forced(s).tests[i].parallelizable,
        forced(s).tests[i].name == s.tests[i].name,
        forced(s).tests[i].command == s.tests[i].command,
        forced(s).tests[i].args == s.tests[i].args,
        forced(s).tests[i].cwd == s.tests[i].cwd,
        forced(s).tests[i].env == s.tests[i].env,
{
}

/// A slash at the end of a folder makes no difference to the files in it.
pub proof fn slashes_make_no_difference(folder: Seq<char>, name: Seq<char>)
    requires
        folder.len() > 0,
        folder.last() != '/',
    ensures
        file_in(folder.push('/'), name) == file_in(folder, name),
        file_in(folder, name) == folder + seq!['/'] + name,
{
    reveal_strlit("/");
    assert("/"@ =~= seq!['/']);
    assert(folder.push('/') + name =~= folder + seq!['/'] + name);
}

/// Without results nothing is written; with results, they go to the temporary
/// directory first and then to the report.
pub proof fn results_go_to_their_files(count: nat, tmpdir: Seq<char>, path: Seq<char>)
    requires
        count > 0,
        tmpdir.len() > 0,
        path.len() > 0,
    ensures
        export_targets(0, tmpdir, Some(path)).len() == 0,
        export_targets(count, tmpdir, Some(path)) == seq![file_in(tmpdir, "results.json"@), path],
        export_targets(count, tmpdir, None) == seq![file_in(tmpdir, "results.json"@)],
        export_targets(count, Seq::empty(), Some(path)) == seq![path],
        export_targets(count, Seq::empty(), None).len() == 0,
        export_targets(count, tmpdir, Some(Seq::empty())) == export_targets(count, tmpdir, None),
{
    let file = file_in(tmpdir, "results.json"@);
    let none = Seq::<Seq<char>>::empty();
    assert(seq![file] + seq![path] =~= seq![file, path]);
    assert(seq![file] + none =~= seq![file]);
    assert(none + seq![path] =~= seq![path]);
}

/// At the end of a run its error is told first, fault injection is reset where
/// it was set up, and the results are saved before the target is stopped.
pub proof fn runs_end_step_by_step(
    o: RunOptions,
    tmpdir: Seq<char>,
    error: Option<Seq<char>>,
    count: nat,
)
    ensures
        ({
            let script = close_script(o, tmpdir, error, count);
            let told: int = if error is Some {
                1
            } else {
                0
            };
            let reset: int = if o.fault_prob != 0 && !o.dry_run {
                1
            } else {
                0
            };
            let targets = export_targets(count, tmpdir, text::opt_text(o.report_path));
            &&& script.len() == told + reset + targets.len() + 2
            &&& error is Some ==> script[0] == RunView::Fire("session_error"@, error->0)
            &&& reset == 1 ==> script[told] == RunView::Fault(0, 1)
            &&& forall|i: int|
                0 <= i < targets.len() ==> script[told + reset + i] == RunView::Export(
                    #[trigger] targets[i],
                )
        }),
{
}

/// Tests are put at the places that the order gives them.
pub proof fn tests_stand_where_they_are_put(tests: Seq<TestView>, order: Seq<usize>, i: int)
    ensures
        in_order(tests, order).len() == order.len(),
        0 <= i < order.len() ==> in_order(tests, order)[i] == tests[order[i] as int],
        tests.len() <= usize::MAX ==> in_order(tests, places(tests.len())) == tests,
{
    if tests.len() <= usize::MAX {
        assert(in_order(tests, places(tests.len())) =~= tests);
    }
}

/// What is given and not empty counts.
pub proof fn empty_texts_are_not_given(s: Seq<char>)
    ensures
        given(None) is None,
        given(Some(Seq::empty())) is None,
        s.len() > 0 ==> given(Some(s)) == Some(s),
{
}

} // verus!
