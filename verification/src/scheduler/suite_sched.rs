//! Suite scheduler: the rounds in which the tests of a suite run, and what
//! is recorded for the tests that are left over.

use crate::data;
use crate::data::Suite;
use crate::data::SuiteView;
use crate::data::Test;
use crate::data::TestView;
use crate::errors::ErrorView;
use crate::errors::KirkError;
use crate::results;
use crate::results::ResultStatus;
use crate::results::SuiteResults;
use crate::results::SuiteResultsView;
use crate::results::TestResults;
use crate::results::TestResultsView;
use crate::scheduler::test_sched;
use crate::scheduler::test_sched::TestStatus;
use crate::scheduler::test_sched::TestScheduler;
use crate::scheduler::test_sched::TestSchedulerView;
use crate::text;
use crate::textmap::TextMap;
use vstd::prelude::*;
use vstd::string::*;

verus! {

/// Whether a test with the given name has results.
pub open spec fn has_results(tests: Seq<TestResultsView>, name: Seq<char>) -> bool {
    exists|i: int| 0 <= i < tests.len() && (#[trigger] tests[i]).test.name == name
}

/// Tests of a suite that have no results yet, in their order.
pub open spec fn undone(suite: Seq<TestView>, tests: Seq<TestResultsView>) -> Seq<TestView> {
    suite.filter(|t: TestView| !has_results(tests, t.name))
}

/// Results of a test that was left over when its suite took too long.
pub open spec fn left_over(test: TestView) -> TestResultsView {
    TestResultsView {
        skipped: 1,
        retcode: 32,
        status: ResultStatus::CONF,
        ..results::blank_results(test)
    }
}

/// Results of tests that were left over.
pub open spec fn all_left_over(tests: Seq<TestView>) -> Seq<TestResultsView> {
    tests.map_values(|t: TestView| left_over(t))
}

/// What is next for a suite.
#[derive(Debug, Clone, Copy, PartialEq, Eq, Structural)]
pub enum SuiteStep {
    /// The tests that are left run.
    Round,
    /// The target is restarted.
    Restart,
    /// The results of the round are collected.
    Collect,
    /// The suite has ended.
    Done,
}

/// How a round ended.
#[derive(Debug)]
pub enum RoundEnd {
    /// The schedule of its tests ended.
    Ended(Result<(), KirkError>),
    /// The timeout of the suite elapsed first.
    Elapsed,
}

/// A suite while its tests run, round by round.
#[derive(Debug)]
pub struct SuiteLoop {
    suite: Suite,
    tests: Vec<TestResults>,
    left: Vec<Test>,
    timed_out: bool,
    step: SuiteStep,
    error: Option<KirkError>,
}

/// How far a suite has come.
#[verifier::ext_equal]
pub struct LoopView {
    /// The suite.
    pub suite: SuiteView,
    /// Results so far.
    pub tests: Seq<TestResultsView>,
    /// Tests that still have to run.
    pub left: Seq<TestView>,
    /// Whether the suite took too long.
    pub timed_out: bool,
    /// What is next, unless nothing is left to run.
    pub step: SuiteStep,
    /// Error that ended the suite.
    pub error: Option<ErrorView>,
}

impl View for SuiteLoop {
    type V = LoopView;

    closed spec fn view(&self) -> LoopView {
        LoopView {
            suite: self.suite@,
            tests: results::results_views(self.tests@),
            left: data::test_views(self.left@),
            timed_out: self.timed_out,
            step: self.step,
            error: test_sched::opt_error(self.error),
        }
    }
}

/// A suite before its first round.
pub open spec fn loop_start(suite: SuiteView) -> LoopView {
    LoopView {
        suite,
        tests: Seq::empty(),
        left: suite.tests,
        timed_out: false,
        step: SuiteStep::Round,
        error: None,
    }
}

/// What is next: there is another round only while tests are left and no stop
/// was asked for.
pub open spec fn next_step(v: LoopView, stopping: bool) -> SuiteStep {
    if v.step == SuiteStep::Round && (stopping || v.left.len() == 0) {
        SuiteStep::Done
    } else {
        v.step
    }
}

/// A suite that ends with an error; the results of the round are lost.
pub open spec fn loop_failed(v: LoopView, e: ErrorView) -> LoopView {
    LoopView { step: SuiteStep::Done, error: Some(e), ..v }
}

/// A suite after the end of a round: a kernel error restarts the target, and
/// any other one ends the suite.
pub open spec fn after_end(v: LoopView, end: RoundEnd) -> LoopView {
    match end {
        RoundEnd::Elapsed => LoopView { step: SuiteStep::Collect, timed_out: true, ..v },
        RoundEnd::Ended(Ok(_)) => LoopView { step: SuiteStep::Collect, ..v },
        RoundEnd::Ended(Err(e)) => if is_kernel_error(e@) {
            LoopView { step: SuiteStep::Restart, ..v }
        } else {
            loop_failed(v, e@)
        },
    }
}

/// A suite after a restart of the target; where it failed, the suite ends.
pub open spec fn after_restart(v: LoopView, outcome: Result<(), KirkError>) -> LoopView {
    match outcome {
        Ok(_) => LoopView { step: SuiteStep::Collect, ..v },
        Err(e) => loop_failed(v, e@),
    }
}

/// A suite after a round: the results of the round are added, and the tests
/// without results are left. Where the suite took too long, these are
/// recorded as left over, and none is left.
pub open spec fn after_round(v: LoopView, round: Seq<TestResultsView>) -> LoopView {
    let tests = v.tests + round;
    let left = undone(v.suite.tests, tests);
    if v.timed_out {
        LoopView {
            tests: tests + all_left_over(left),
            left: Seq::empty(),
            step: SuiteStep::Done,
            ..v
        }
    } else {
        LoopView { tests, left, step: SuiteStep::Round, ..v }
    }
}

/// A test that meets a kernel error has the target restarted, after which the
/// suite goes on; one that merely takes too long has not.
pub proof fn kernel_errors_restart_the_target(
    v: LoopView,
    status: TestStatus,
    detail: Seq<char>,
    error: KirkError,
)
    ensures
        (test_sched::status_error(status, detail) is Some) == (status != TestStatus::Completed
            && status != TestStatus::TestTimeout),
        test_sched::status_error(status, detail) == Some(error@) ==> {
            let after = after_end(v, RoundEnd::Ended(Err(error)));
            &&& after.step == SuiteStep::Restart
            &&& after.error == v.error
            &&& after_restart(after, Ok(())).step == SuiteStep::Collect
        },
{
}

/// Whether every test of a suite has results or is left, and none is left
/// where the suite ended without an error.
pub open spec fn accounts_for_all(v: LoopView) -> bool {
    &&& forall|i: int|
        0 <= i < v.suite.tests.len() ==> has_results(
            v.tests,
            (#[trigger] v.suite.tests[i]).name,
        ) || v.left.contains(v.suite.tests[i])
    &&& v.step == SuiteStep::Done && v.error is None ==> v.left.len() == 0
}

/// At every step of a suite, each of its tests has results or is left.
pub proof fn tests_are_accounted_for(
    v: LoopView,
    end: RoundEnd,
    outcome: Result<(), KirkError>,
    round: Seq<TestResultsView>,
)
    ensures
        accounts_for_all(loop_start(v.suite)),
        accounts_for_all(v) ==> accounts_for_all(after_end(v, end)),
        accounts_for_all(v) ==> accounts_for_all(after_restart(v, outcome)),
        accounts_for_all(after_round(v, round)),
{
    let start = loop_start(v.suite);
    assert forall|i: int| 0 <= i < start.suite.tests.len() implies has_results(
        start.tests,
        (#[trigger] start.suite.tests[i]).name,
    ) || start.left.contains(start.suite.tests[i]) by {
        assert(start.left[i] == start.suite.tests[i]);
    }
    no_test_is_lost(v, round);
}

/// A suite that ended by itself, without an error or a stop, has results for
/// each of its tests, whatever kernel errors and timeouts there were.
pub proof fn ended_suite_is_complete(v: LoopView)
    requires
        accounts_for_all(v),
        next_step(v, false) == SuiteStep::Done,
        v.error is None,
    ensures
        forall|i: int|
            0 <= i < v.suite.tests.len() ==> has_results(
                v.tests,
                (#[trigger] v.suite.tests[i]).name,
            ),
{
    assert(v.left.len() == 0);
    assert forall|i: int| 0 <= i < v.suite.tests.len() implies has_results(
        v.tests,
        (#[trigger] v.suite.tests[i]).name,
    ) by {
        assert(!v.left.contains(v.suite.tests[i]));
    }
}

/// After each round every test of the suite has results or is left, a test
/// that is left has no results, and results are never taken back. Once the
/// suite took too long, every test has results.
pub proof fn no_test_is_lost(v: LoopView, round: Seq<TestResultsView>)
    ensures
        ({
            let after = after_round(v, round);
            &&& forall|i: int|
                0 <= i < v.suite.tests.len() ==> has_results(
                    after.tests,
                    (#[trigger] v.suite.tests[i]).name,
                ) || after.left.contains(v.suite.tests[i])
            &&& forall|i: int|
                0 <= i < after.left.len() ==> !has_results(
                    after.tests,
                    (#[trigger] after.left[i]).name,
                )
            &&& (v.tests + round).is_prefix_of(after.tests)
            &&& v.timed_out ==> forall|i: int|
                0 <= i < v.suite.tests.len() ==> has_results(
                    after.tests,
                    (#[trigger] v.suite.tests[i]).name,
                )
        }),
{
    let after = after_round(v, round);
    let tests = v.tests + round;
    let suite = v.suite.tests;
    let fresh = |t: TestView| !has_results(tests, t.name);
    let left = undone(suite, tests);
    assert forall|i: int| 0 <= i < suite.len() implies has_results(
        after.tests,
        (#[trigger] suite[i]).name,
    ) || after.left.contains(suite[i]) by {
        let t = suite[i];
        if has_results(tests, t.name) {
            let k = choose|k: int| 0 <= k < tests.len() && (#[trigger] tests[k]).test.name == t.name;
            assert(after.tests[k] == tests[k]);
        } else {
            assert(fresh(t));
            suite.lemma_filter_contains_rev(fresh, t);
            assert(left.contains(t));
            if v.timed_out {
                let k = choose|k: int| 0 <= k < left.len() && left[k] == t;
                assert(all_left_over(left)[k] == left_over(t));
                assert(after.tests[tests.len() + k] == left_over(t));
            }
        }
    }
    assert forall|i: int| 0 <= i < after.left.len() implies !has_results(
        after.tests,
        (#[trigger] after.left[i]).name,
    ) by {
        filter_holds(suite, fresh, i);
    }
    assert((v.tests + round).is_prefix_of(after.tests)) by {
        assert(after.tests.take(tests.len() as int) =~= tests);
    }
    if v.timed_out {
        assert forall|i: int| 0 <= i < suite.len() implies has_results(
            after.tests,
            (#[trigger] suite[i]).name,
        ) by {
            assert(!after.left.contains(suite[i]));
        }
    }
}

proof fn filter_holds(s: Seq<TestView>, p: spec_fn(TestView) -> bool, i: int)
    requires
        0 <= i < s.filter(p).len(),
    ensures
        p(s.filter(p)[i]),
        s.contains(s.filter(p)[i]),
    decreases s.len(),
{
    reveal(Seq::filter);
    if s.len() > 0 {
        let front = s.drop_last();
        if i < front.filter(p).len() {
            filter_holds(front, p, i);
            let k = choose|k: int| 0 <= k < front.len() && front[k] == front.filter(p)[i];
            assert(s[k] == s.filter(p)[i]);
        } else {
            assert(s[s.len() - 1] == s.filter(p)[i]);
        }
    }
}

/// Whether no two tests have the same name.
pub open spec fn distinct_tests(tests: Seq<TestView>) -> bool {
    forall|i: int, j: int|
        0 <= i < j < tests.len() ==> (#[trigger] tests[i]).name != (#[trigger] tests[j]).name
}

/// Whether no two results are of tests with the same name.
pub open spec fn distinct_results(rows: Seq<TestResultsView>) -> bool {
    forall|i: int, j: int|
        0 <= i < j < rows.len() ==> (#[trigger] rows[i]).test.name != (#[trigger] rows[j]).test.name
}

/// Whether each result is of one of the tests.
pub open spec fn results_of(rows: Seq<TestResultsView>, tests: Seq<TestView>) -> bool {
    forall|k: int|
        0 <= k < rows.len() ==> exists|i: int|
            0 <= i < tests.len() && (#[trigger] tests[i]).name == (#[trigger] rows[k]).test.name
}

/// Whether a suite has at most one result per test, no other results, and
/// exactly the tests without results left, unless it has ended.
pub open spec fn one_row_at_most(v: LoopView) -> bool {
    &&& distinct_tests(v.suite.tests)
    &&& distinct_results(v.tests)
    &&& results_of(v.tests, v.suite.tests)
    &&& v.step != SuiteStep::Done ==> v.left == undone(v.suite.tests, v.tests)
}

proof fn left_is_of_suite(suite: Seq<TestView>, tests: Seq<TestResultsView>, i: int)
    requires
        0 <= i < undone(suite, tests).len(),
    ensures
        !has_results(tests, undone(suite, tests)[i].name),
        suite.contains(undone(suite, tests)[i]),
{
    let fresh = |t: TestView| !has_results(tests, t.name);
    filter_holds(suite, fresh, i);
}

proof fn filter_keeps_distinct(s: Seq<TestView>, p: spec_fn(TestView) -> bool)
    requires
        distinct_tests(s),
    ensures
        distinct_tests(s.filter(p)),
    decreases s.len(),
{
    reveal(Seq::filter);
    if s.len() > 0 {
        let front = s.drop_last();
        assert(distinct_tests(front)) by {
            assert forall|i: int, j: int| 0 <= i < j < front.len() implies (#[trigger] front[i]).name
                != (#[trigger] front[j]).name by {
                assert(s[i].name != s[j].name);
            }
        }
        filter_keeps_distinct(front, p);
        let f = front.filter(p);
        assert forall|i: int, j: int| 0 <= i < j < s.filter(p).len() implies (#[trigger] s.filter(
            p,
        )[i]).name != (#[trigger] s.filter(p)[j]).name by {
            if j < f.len() {
                assert(f[i].name != f[j].name);
            } else {
                filter_holds(front, p, i);
                let k = choose|k: int| 0 <= k < front.len() && front[k] == f[i];
                assert(s[k].name != s[s.len() - 1].name);
            }
        }
    }
}

/// A suite whose tests have names of their own keeps to one row per test,
/// whatever happens in its rounds, where each round gives results only of
/// tests that were left, and no two of the same one.
pub proof fn rows_stay_single(
    v: LoopView,
    end: RoundEnd,
    outcome: Result<(), KirkError>,
    round: Seq<TestResultsView>,
)
    requires
        distinct_tests(v.suite.tests),
    ensures
        one_row_at_most(loop_start(v.suite)),
        one_row_at_most(v) && v.step == SuiteStep::Round ==> one_row_at_most(after_end(v, end)),
        one_row_at_most(v) && v.step == SuiteStep::Restart ==> one_row_at_most(
            after_restart(v, outcome),
        ),
        one_row_at_most(v) && v.step == SuiteStep::Collect && distinct_results(round)
            && results_of(round, v.left) ==> one_row_at_most(after_round(v, round)),
{
    let start = loop_start(v.suite);
    assert(undone(v.suite.tests, Seq::empty()) =~= v.suite.tests) by {
        all_kept(v.suite.tests, |t: TestView| !has_results(Seq::empty(), t.name));
    }
    if one_row_at_most(v) && v.step == SuiteStep::Collect && distinct_results(round) && results_of(
        round,
        v.left,
    ) {
        round_stays_single(v, round);
    }
}

proof fn all_kept(s: Seq<TestView>, p: spec_fn(TestView) -> bool)
    requires
        forall|i: int| 0 <= i < s.len() ==> p(#[trigger] s[i]),
    ensures
        s.filter(p) == s,
    decreases s.len(),
{
    reveal(Seq::filter);
    if s.len() > 0 {
        let front = s.drop_last();
        assert forall|i: int| 0 <= i < front.len() implies p(#[trigger] front[i]) by {
            assert(p(s[i]));
        }
        all_kept(front, p);
        assert(p(s[s.len() - 1]));
        assert(front.push(s.last()) =~= s);
    }
}

proof fn round_stays_single(v: LoopView, round: Seq<TestResultsView>)
    requires
        one_row_at_most(v),
        v.step == SuiteStep::Collect,
        distinct_results(round),
        results_of(round, v.left),
    ensures
        one_row_at_most(after_round(v, round)),
{
    let suite = v.suite.tests;
    let both = v.tests + round;
    let left = undone(suite, both);
    let rest = all_left_over(left);
    assert(distinct_results(both) && results_of(both, suite)) by {
        assert forall|k: int| 0 <= k < round.len() implies !has_results(
            v.tests,
            (#[trigger] round[k]).test.name,
        ) && exists|i: int|
            0 <= i < suite.len() && (#[trigger] suite[i]).name == round[k].test.name by {
            let i = choose|i: int|
                0 <= i < v.left.len() && (#[trigger] v.left[i]).name == round[k].test.name;
            left_is_of_suite(suite, v.tests, i);
            let j = choose|j: int| 0 <= j < suite.len() && suite[j] == v.left[i];
            assert(suite[j].name == round[k].test.name);
        }
        assert forall|i: int, j: int| 0 <= i < j < both.len() implies (#[trigger] both[i]).test.name
            != (#[trigger] both[j]).test.name by {
            let n = v.tests.len() as int;
            if j < n {
                assert(v.tests[i].test.name != v.tests[j].test.name);
            } else if i >= n {
                assert(round[i - n].test.name != round[j - n].test.name);
            } else {
                assert(!has_results(v.tests, round[j - n].test.name));
                assert(v.tests[i] == both[i]);
            }
        }
        assert forall|k: int| 0 <= k < both.len() implies exists|i: int|
            0 <= i < suite.len() && (#[trigger] suite[i]).name == (#[trigger] both[k]).test.name by {
            if k < v.tests.len() {
                assert(both[k] == v.tests[k]);
            } else {
                assert(both[k] == round[k - v.tests.len()]);
            }
        }
    }
    if v.timed_out {
        let all = both + rest;
        let n = both.len() as int;
        filter_keeps_distinct(suite, |t: TestView| !has_results(both, t.name));
        assert forall|k: int| 0 <= k < rest.len() implies (#[trigger] rest[k]).test.name
            == left[k].name && !has_results(both, rest[k].test.name) && exists|i: int|
            0 <= i < suite.len() && (#[trigger] suite[i]).name == rest[k].test.name by {
            left_is_of_suite(suite, both, k);
            let j = choose|j: int| 0 <= j < suite.len() && suite[j] == left[k];
            assert(suite[j].name == rest[k].test.name);
        }
        assert forall|i: int, j: int| 0 <= i < j < all.len() implies (#[trigger] all[i]).test.name
            != (#[trigger] all[j]).test.name by {
            if j < n {
                assert(both[i].test.name != both[j].test.name);
            } else if i >= n {
                assert(rest[i - n].test.name == left[i - n].name);
                assert(rest[j - n].test.name == left[j - n].name);
                assert(left[i - n].name != left[j - n].name);
            } else {
                assert(!has_results(both, rest[j - n].test.name));
                assert(both[i] == all[i]);
            }
        }
        assert forall|k: int| 0 <= k < all.len() implies exists|i: int|
            0 <= i < suite.len() && (#[trigger] suite[i]).name == (#[trigger] all[k]).test.name by {
            if k < n {
                assert(all[k] == both[k]);
            } else {
                assert(all[k] == rest[k - n]);
            }
        }
    }
}

/// A suite that ended by itself, without an error or a stop, has exactly one
/// result for each of its tests, and no other result.
pub proof fn ended_suite_has_one_row_per_test(v: LoopView, i: int)
    requires
        accounts_for_all(v),
        one_row_at_most(v),
        next_step(v, false) == SuiteStep::Done,
        v.error is None,
        0 <= i < v.suite.tests.len(),
    ensures
        exists|k: int|
            0 <= k < v.tests.len() && (#[trigger] v.tests[k]).test.name == v.suite.tests[i].name,
        forall|j: int, k: int|
            0 <= j < v.tests.len() && 0 <= k < v.tests.len() && (#[trigger] v.tests[j]).test.name
                == v.suite.tests[i].name && (#[trigger] v.tests[k]).test.name
                == v.suite.tests[i].name ==> j == k,
        results_of(v.tests, v.suite.tests),
        v.tests.len() == v.suite.tests.len(),
{
    ended_suite_is_complete(v);
    assert(has_results(v.tests, v.suite.tests[i].name));
    let tests = v.suite.tests.map_values(|t: TestView| t.name);
    let rows = v.tests.map_values(|r: TestResultsView| r.test.name);
    assert(tests.no_duplicates()) by {
        assert forall|x: int, y: int|
            0 <= x < tests.len() && 0 <= y < tests.len() && x != y implies tests[x] != tests[y] by {
            if x < y {
                assert(v.suite.tests[x].name != v.suite.tests[y].name);
            } else {
                assert(v.suite.tests[y].name != v.suite.tests[x].name);
            }
        }
    }
    assert(rows.no_duplicates()) by {
        assert forall|x: int, y: int|
            0 <= x < rows.len() && 0 <= y < rows.len() && x != y implies rows[x] != rows[y] by {
            if x < y {
                assert(v.tests[x].test.name != v.tests[y].test.name);
            } else {
                assert(v.tests[y].test.name != v.tests[x].test.name);
            }
        }
    }
    assert(tests.to_set() =~= rows.to_set()) by {
        assert forall|name: Seq<char>| tests.contains(name) implies rows.contains(name) by {
            let x = choose|x: int| 0 <= x < tests.len() && tests[x] == name;
            assert(has_results(v.tests, v.suite.tests[x].name));
            let k = choose|k: int|
                0 <= k < v.tests.len() && (#[trigger] v.tests[k]).test.name == name;
            assert(rows[k] == name);
        }
        assert forall|name: Seq<char>| rows.contains(name) implies tests.contains(name) by {
            let k = choose|k: int| 0 <= k < rows.len() && rows[k] == name;
            assert(v.tests[k].test.name == name);
            let x = choose|x: int|
                0 <= x < v.suite.tests.len() && (#[trigger] v.suite.tests[x]).name == name;
            assert(tests[x] == name);
        }
    }
    tests.unique_seq_to_set();
    rows.unique_seq_to_set();
}

/// A suite whose rounds go on ends: where a round gives results for a test
/// that was left, fewer tests are left.
pub proof fn rounds_make_progress(v: LoopView, round: Seq<TestResultsView>, i: int)
    requires
        !v.timed_out,
        v.left == undone(v.suite.tests, v.tests),
        0 <= i < v.left.len(),
        has_results(round, v.left[i].name),
    ensures
        after_round(v, round).left.len() < v.left.len(),
{
    let suite = v.suite.tests;
    let all = v.tests + round;
    let before = |t: TestView| !has_results(v.tests, t.name);
    let after = |t: TestView| !has_results(all, t.name);
    assert forall|t: TestView| #[trigger] after(t) implies before(t) by {
        if has_results(v.tests, t.name) {
            let k = choose|k: int|
                0 <= k < v.tests.len() && (#[trigger] v.tests[k]).test.name == t.name;
            assert(all[k] == v.tests[k]);
        }
    }
    let name = v.left[i].name;
    let k = choose|k: int| 0 <= k < round.len() && (#[trigger] round[k]).test.name == name;
    assert(all[v.tests.len() + k] == round[k]);
    assert(has_results(all, name));
    assert(!after(v.left[i]));
    assert(v.left == suite.filter(before));
    filter_shrinks(suite, before, after, i);
}

proof fn filter_len(s: Seq<TestView>, p: spec_fn(TestView) -> bool, q: spec_fn(TestView) -> bool)
    requires
        forall|t: TestView| #[trigger] q(t) ==> p(t),
    ensures
        s.filter(q).len() <= s.filter(p).len(),
    decreases s.len(),
{
    reveal(Seq::filter);
    if s.len() > 0 {
        filter_len(s.drop_last(), p, q);
        assert(q(s.last()) ==> p(s.last()));
    }
}

proof fn filter_shrinks(
    s: Seq<TestView>,
    p: spec_fn(TestView) -> bool,
    q: spec_fn(TestView) -> bool,
    i: int,
)
    requires
        forall|t: TestView| #[trigger] q(t) ==> p(t),
        0 <= i < s.filter(p).len(),
        !q(s.filter(p)[i]),
    ensures
        s.filter(q).len() < s.filter(p).len(),
    decreases s.len(),
{
    reveal(Seq::filter);
    if s.len() > 0 {
        let front = s.drop_last();
        let last = s.last();
        assert(q(last) ==> p(last));
        if i < front.filter(p).len() {
            assert(s.filter(p)[i] == front.filter(p)[i]);
            filter_shrinks(front, p, q, i);
        } else {
            assert(s.filter(p)[i] == last);
            filter_len(front, p, q);
        }
    }
}

fn has_result(tests: &Vec<TestResults>, name: &str) -> (r: bool)
    ensures
        r == has_results(results::results_views(tests@), name@),
{
    let mut i: usize = 0;
    while i < tests.len()
        invariant
            i <= tests@.len(),
            forall|j: int|
                0 <= j < i ==> (#[trigger] results::results_views(tests@)[j]).test.name != name@,
        decreases tests@.len() - i,
    {
        assert(results::results_views(tests@)[i as int] == tests@[i as int]@);
        if text::same(tests[i].test().name(), name) {
            return true;
        }
        i = i + 1;
    }
    false
}

/// Whether an error of a round is a kernel error, after which the target is
/// restarted and the suite goes on.
pub open spec fn is_kernel_error(e: ErrorView) -> bool {
    e is KernelPanic || e is KernelTainted || e is KernelTimeout
}

/// Whether the target has to be restarted after an error.
pub fn needs_restart(e: &KirkError) -> (r: bool)
    ensures
        r == is_kernel_error(e@),
{
    match e {
        KirkError::KernelPanic(_) => true,
        KirkError::KernelTainted(_) => true,
        KirkError::KernelTimeout(_) => true,
        _ => false,
    }
}

/// Value of a key, if it has one.
pub open spec fn info_value(info: Map<Seq<char>, Seq<char>>, key: Seq<char>) -> Option<Seq<char>> {
    if info.dom().contains(key) {
        Some(info[key])
    } else {
        None
    }
}

/// Results of a suite, with what is known of the target.
pub open spec fn suite_result(
    suite: SuiteView,
    tests: Seq<TestResultsView>,
    info: Map<Seq<char>, Seq<char>>,
) -> SuiteResultsView {
    SuiteResultsView {
        suite,
        tests,
        distro: info_value(info, "distro"@),
        distro_ver: info_value(info, "distro_ver"@),
        kernel: info_value(info, "kernel"@),
        cmdline: info_value(info, "cmdline"@),
        arch: info_value(info, "arch"@),
        cpu: info_value(info, "cpu"@),
        swap: info_value(info, "swap"@),
        ram: info_value(info, "ram"@),
    }
}

/// Results of a suite, with what is known of the target.
pub fn apply_info(suite: Suite, tests: Vec<TestResults>, info: &TextMap) -> (r: SuiteResults)
    ensures
        r@ == suite_result(suite@, results::results_views(tests@), info@),
{
    let mut r = SuiteResults::new(suite).with_tests(tests);
    match info.get("distro") {
        Some(value) => {
            r = r.with_distro(value);
        },
        None => {},
    }
    match info.get("distro_ver") {
        Some(value) => {
            r = r.with_distro_ver(value);
        },
        None => {},
    }
    match info.get("kernel") {
        Some(value) => {
            r = r.with_kernel(value);
        },
        None => {},
    }
    match info.get("cmdline") {
        Some(value) => {
            r = r.with_cmdline(value);
        },
        None => {},
    }
    match info.get("arch") {
        Some(value) => {
            r = r.with_arch(value);
        },
        None => {},
    }
    match info.get("cpu") {
        Some(value) => {
            r = r.with_cpu(value);
        },
        None => {},
    }
    match info.get("swap") {
        Some(value) => {
            r = r.with_swap(value);
        },
        None => {},
    }
    match info.get("ram") {
        Some(value) => {
            r = r.with_ram(value);
        },
        None => {},
    }
    r
}

impl SuiteLoop {
    /// Start a suite.
    pub fn new(suite: &Suite) -> (r: Self)
        ensures
            r@ == loop_start(suite@),
    {
        let r = SuiteLoop {
            suite: suite.clone(),
            tests: Vec::new(),
            left: data::copy_slice(suite.tests()),
            timed_out: false,
            step: SuiteStep::Round,
            error: None,
        };
        assert(r@.tests =~= Seq::<TestResultsView>::empty());
        r
    }

    /// Tests that run in the next round; none where the suite has ended.
    pub fn left(&self) -> (r: &[Test])
        ensures
            data::test_views(r@) == self@.left,
    {
        self.left.as_slice()
    }

    /// What is next, given whether a stop was asked for.
    pub fn step(&self, stopping: bool) -> (r: SuiteStep)
        ensures
            r == next_step(self@, stopping),
    {
        if self.step == SuiteStep::Round && (stopping || self.left.len() == 0) {
            SuiteStep::Done
        } else {
            self.step
        }
    }

    /// Take in how the round ended.
    pub fn round_ended(&mut self, end: RoundEnd)
        requires
            old(self)@.step == SuiteStep::Round,
        ensures
            final(self)@ == after_end(old(self)@, end),
    {
        match end {
            RoundEnd::Elapsed => {
                self.timed_out = true;
                self.step = SuiteStep::Collect;
            },
            RoundEnd::Ended(Ok(_)) => {
                self.step = SuiteStep::Collect;
            },
            RoundEnd::Ended(Err(e)) => {
                if needs_restart(&e) {
                    self.step = SuiteStep::Restart;
                } else {
                    self.step = SuiteStep::Done;
                    self.error = Some(e);
                }
            },
        }
    }

    /// Take in what the restart of the target came to.
    pub fn restarted(&mut self, outcome: Result<(), KirkError>)
        requires
            old(self)@.step == SuiteStep::Restart,
        ensures
            final(self)@ == after_restart(old(self)@, outcome),
    {
        match outcome {
            Ok(_) => {
                self.step = SuiteStep::Collect;
            },
            Err(e) => {
                self.step = SuiteStep::Done;
                self.error = Some(e);
            },
        }
    }

    /// Take in the results of a round.
    pub fn absorb(&mut self, round: Vec<TestResults>)
        requires
            old(self)@.step == SuiteStep::Collect,
        ensures
            final(self)@ == after_round(old(self)@, results::results_views(round@)),
    {
        let ghost had = results::results_views(self.tests@);
        let ghost more = results::results_views(round@);
        let mut round = round;
        self.tests.append(&mut round);
        assert(results::results_views(self.tests@) =~= had + more);
        let left = self.undone_tests();
        if self.timed_out {
            self.push_left_over(&left);
            self.left = Vec::new();
            self.step = SuiteStep::Done;
            assert(data::test_views(self.left@) =~= Seq::<TestView>::empty());
        } else {
            self.left = left;
            self.step = SuiteStep::Round;
        }
    }

    fn undone_tests(&self) -> (r: Vec<Test>)
        ensures
            data::test_views(r@) == undone(self@.suite.tests, self@.tests),
    {
        let all_tests = self.suite.tests();
        let ghost all = data::test_views(all_tests@);
        let mut r: Vec<Test> = Vec::new();
        let mut i: usize = 0;
        proof {
            reveal(Seq::filter);
            assert(data::test_views(r@) =~= undone(all.take(0), self@.tests));
        }
        while i < all_tests.len()
            invariant
                i <= all_tests@.len(),
                all == data::test_views(all_tests@),
                data::test_views(r@) == undone(all.take(i as int), self@.tests),
            decreases all_tests@.len() - i,
        {
            proof {
                reveal(Seq::filter);
                assert(all.take(i + 1).drop_last() =~= all.take(i as int));
                assert(all.take(i + 1).last() == all_tests@[i as int]@);
            }
            if !has_result(&self.tests, all_tests[i].name()) {
                let ghost before = r@;
                let t = all_tests[i].clone();
                r.push(t);
                assert(data::test_views(r@) =~= data::test_views(before).push(t@));
            }
            i = i + 1;
        }
        assert(all.take(all.len() as int) =~= all);
        r
    }

    fn push_left_over(&mut self, left: &Vec<Test>)
        ensures
            final(self)@ == (LoopView {
                tests: old(self)@.tests + all_left_over(data::test_views(left@)),
                ..old(self)@
            }),
    {
        let ghost start = self@;
        let ghost all = all_left_over(data::test_views(left@));
        let mut i: usize = 0;
        assert(start.tests + all.take(0) =~= start.tests);
        while i < left.len()
            invariant
                i <= left@.len(),
                start == old(self)@,
                all == all_left_over(data::test_views(left@)),
                self@ == (LoopView { tests: start.tests + all.take(i as int), ..start }),
            decreases left@.len() - i,
        {
            let t = left[i].clone();
            let r = TestResults::new(t).with_skipped(1).with_retcode(32).with_status(
                ResultStatus::CONF,
            );
            let ghost before = self.tests@;
            self.tests.push(r);
            proof {
                assert(all[i as int] == left_over(left@[i as int]@));
                assert(results::results_views(self.tests@) =~= results::results_views(before).push(
                    r@,
                ));
                assert(start.tests + all.take(i + 1) =~= (start.tests + all.take(i as int)).push(
                    all[i as int],
                ));
            }
            i = i + 1;
        }
        assert(all.take(all.len() as int) =~= all);
    }

    /// Results of the suite, with what is known of the target, and the error
    /// that ended it.
    pub fn completed(self, info: &TextMap) -> (r: (SuiteResults, Result<(), KirkError>))
        ensures
            r.0@ == suite_result(self@.suite, self@.tests, info@),
            match r.1 {
                Ok(_) => self@.error is None,
                Err(e) => self@.error == Some(e@),
            },
    {
        let outcome = match self.error {
            Some(e) => Err(e),
            None => Ok(()),
        };
        (apply_info(self.suite, self.tests, info), outcome)
    }
}

/// What the results of suites are.
pub open spec fn suite_results_views(v: Seq<SuiteResults>) -> Seq<SuiteResultsView> {
    v.map_values(|r: SuiteResults| r@)
}

/// Suite scheduler.
#[derive(Debug)]
pub struct SuiteScheduler {
    inner: TestScheduler,
    results: Vec<SuiteResults>,
    suite_timeout: u64,
    stop_flag: bool,
    stopped: bool,
}

/// What a scheduler holds.
#[verifier::ext_equal]
pub struct SuiteSchedulerView {
    /// Scheduler of the tests.
    pub inner: TestSchedulerView,
    /// Results of the suites, in order.
    pub results: Seq<SuiteResultsView>,
    /// Timeout of a suite; zero where there is none.
    pub suite_timeout: u64,
    /// Whether a stop was asked for.
    pub stop_flag: bool,
    /// Whether the scheduler has been stopped.
    pub stopped: bool,
}

impl View for SuiteScheduler {
    type V = SuiteSchedulerView;

    closed spec fn view(&self) -> SuiteSchedulerView {
        SuiteSchedulerView {
            inner: self.inner@,
            results: suite_results_views(self.results@),
            suite_timeout: self.suite_timeout,
            stop_flag: self.stop_flag,
            stopped: self.stopped,
        }
    }
}

impl SuiteScheduler {
    /// Create a scheduler with at least one worker.
    pub fn new(suite_timeout: u64, exec_timeout: u64, max_workers: usize) -> (r: Self)
        ensures
            r@ == (SuiteSchedulerView {
                inner: TestSchedulerView {
                    test_timeout: test_sched::timeout_in_force(exec_timeout),
                    max_workers: if max_workers == 0 {
                        1
                    } else {
                        max_workers
                    },
                    results: Seq::empty(),
                    stop_cnt: 0,
                    stopped: false,
                },
                results: Seq::empty(),
                suite_timeout: test_sched::timeout_in_force(suite_timeout),
                stop_flag: false,
                stopped: false,
            }),
    {
        let r = SuiteScheduler {
            inner: TestScheduler::new(exec_timeout, max_workers),
            results: Vec::new(),
            suite_timeout: test_sched::clamp_timeout(suite_timeout),
            stop_flag: false,
            stopped: false,
        };
        assert(r@.results =~= Seq::<SuiteResultsView>::empty());
        r
    }

    /// Timeout of a suite in seconds, as the bits of a double; zero where
    /// there is none.
    pub fn suite_timeout(&self) -> (r: u64)
        ensures
            r == self@.suite_timeout,
    {
        self.suite_timeout
    }

    /// Scheduler of the tests.
    pub fn test_scheduler(&self) -> (r: &TestScheduler)
        ensures
            r@ == self@.inner,
    {
        &self.inner
    }

    /// Scheduler of the tests, to run them.
    pub fn test_scheduler_mut(&mut self) -> (r: &mut TestScheduler)
        ensures
            r@ == old(self)@.inner,
            final(self)@ == (SuiteSchedulerView { inner: final(r)@, ..old(self)@ }),
    {
        &mut self.inner
    }

    /// Results of the suites, in order.
    pub fn results(&self) -> (r: Vec<SuiteResults>)
        ensures
            suite_results_views(r@) == self@.results,
    {
        let ghost all = suite_results_views(self.results@);
        let mut r: Vec<SuiteResults> = Vec::new();
        let mut i: usize = 0;
        while i < self.results.len()
            invariant
                i <= self.results@.len(),
                all == suite_results_views(self.results@),
                suite_results_views(r@) =~= all.take(i as int),
            decreases self.results@.len() - i,
        {
            let ghost before = r@;
            let s = self.results[i].clone();
            r.push(s);
            assert(suite_results_views(r@) =~= suite_results_views(before).push(s@));
            i = i + 1;
        }
        assert(suite_results_views(r@) =~= all);
        r
    }

    /// Whether the scheduler has been stopped.
    pub fn stopped(&self) -> (r: bool)
        ensures
            r == self@.stopped,
    {
        self.stopped
    }

    /// Whether a stop was asked for.
    pub fn stopping(&self) -> (r: bool)
        ensures
            r == self@.stop_flag,
    {
        self.stop_flag
    }

    /// Ask for a stop.
    pub fn stop(&mut self)
        ensures
            final(self)@ == (SuiteSchedulerView { stop_flag: true, ..old(self)@ }),
    {
        self.stop_flag = true;
    }

    /// The schedule has ended after a stop.
    pub fn stop_done(&mut self)
        ensures
            final(self)@ == (SuiteSchedulerView {
                stop_flag: false,
                stopped: true,
                ..old(self)@
            }),
    {
        self.stop_flag = false;
        self.stopped = true;
    }

    /// Start a schedule: forgets the results of the last one.
    pub fn schedule(&mut self, suites: &[Suite]) -> (r: Result<(), KirkError>)
        ensures
            match r {
                Ok(_) => suites@.len() > 0 && final(self)@ == (SuiteSchedulerView {
                    results: Seq::empty(),
                    ..old(self)@
                }),
                Err(e) => {
                    &&& suites@.len() == 0
                    &&& e@ == ErrorView::Scheduler("jobs list is empty"@)
                    &&& final(self)@ == old(self)@
                },
            },
    {
        if suites.len() == 0 {
            return Err(KirkError::Scheduler(text::owned("jobs list is empty")));
        }
        self.results = Vec::new();
        assert(self@.results =~= Seq::<SuiteResultsView>::empty());
        Ok(())
    }

    /// Record the results of a suite.
    pub fn record(&mut self, completed: SuiteResults)
        ensures
            final(self)@ == (SuiteSchedulerView {
                results: old(self)@.results.push(completed@),
                ..old(self)@
            }),
    {
        let ghost before = self.results@;
        self.results.push(completed);
        assert(suite_results_views(self.results@) =~= suite_results_views(before).push(
            completed@,
        ));
    }
}

/// A test that was left over when its suite took too long is skipped: one
/// skipped check and nothing else, with return code 32 and without output.
pub proof fn left_over_tests_are_skipped(tests: Seq<TestView>, i: int)
    requires
        0 <= i < tests.len(),
    ensures
        all_left_over(tests).len() == tests.len(),
        ({
            let r = all_left_over(tests)[i];
            &&& r.test == tests[i]
            &&& r.skipped == 1
            &&& r.passed == 0
            &&& r.failed == 0
            &&& r.broken == 0
            &&& r.warnings == 0
            &&& r.retcode == 32
            &&& r.status == 32
            &&& r.exec_time == 0
            &&& r.stdout.len() == 0
        }),
{
}

/// What a round came to decides how a suite goes on. Results of the round are
/// collected unless an error ended the suite: a schedule that ended well is
/// followed by the tests that are left, one that took too long ends the suite
/// with all tests accounted for, and one that met a kernel error restarts the
/// target first.
pub proof fn rounds_lead_on(v: LoopView, error: KirkError, outcome: Result<(), KirkError>)
    ensures
        ({
            let fine = after_end(v, RoundEnd::Ended(Ok(())));
            &&& fine.step == SuiteStep::Collect
            &&& fine.timed_out == v.timed_out
            &&& fine.error == v.error
            &&& fine.tests == v.tests && fine.left == v.left && fine.suite == v.suite
        }),
        ({
            let late = after_end(v, RoundEnd::Elapsed);
            &&& late.step == SuiteStep::Collect
            &&& late.timed_out
            &&& late.error == v.error
            &&& late.tests == v.tests && late.left == v.left && late.suite == v.suite
        }),
        ({
            let failed = after_end(v, RoundEnd::Ended(Err(error)));
            let kernel = error@ is KernelPanic || error@ is KernelTainted || error@
                is KernelTimeout;
            &&& kernel ==> failed.step == SuiteStep::Restart && failed.error == v.error
            &&& !kernel ==> failed.step == SuiteStep::Done && failed.error == Some(error@)
            &&& failed.tests == v.tests && failed.suite == v.suite && failed.timed_out
                == v.timed_out
        }),
        outcome is Ok ==> after_restart(v, outcome).step == SuiteStep::Collect && after_restart(
            v,
            outcome,
        ).error == v.error,
        outcome matches Err(e) ==> after_restart(v, outcome).step == SuiteStep::Done && after_restart(
            v,
            outcome,
        ).error == Some(e@),
        after_restart(v, outcome).tests == v.tests,
        after_restart(v, outcome).left == v.left,
        after_restart(v, outcome).suite == v.suite,
        after_restart(v, outcome).timed_out == v.timed_out,
{
}

/// A stop keeps the next round from starting and nothing else: a restart and
/// the results of a round are still seen to. Without a stop another round
/// starts exactly while tests are left.
pub proof fn stops_end_between_rounds(v: LoopView, stopping: bool)
    ensures
        v.step == SuiteStep::Restart ==> next_step(v, stopping) == SuiteStep::Restart,
        v.step == SuiteStep::Collect ==> next_step(v, stopping) == SuiteStep::Collect,
        v.step == SuiteStep::Done ==> next_step(v, stopping) == SuiteStep::Done,
        v.step == SuiteStep::Round ==> next_step(v, true) == SuiteStep::Done,
        v.step == SuiteStep::Round && v.left.len() > 0 ==> next_step(v, false)
            == SuiteStep::Round,
        v.step == SuiteStep::Round && v.left.len() == 0 ==> next_step(v, false)
            == SuiteStep::Done,
{
}

/// The next round runs the tests without results, in the order of the suite:
/// one with results is passed over, one without is there.
pub proof fn tests_without_results_are_left(
    front: Seq<TestView>,
    t: TestView,
    rows: Seq<TestResultsView>,
)
    ensures
        (exists|i: int| 0 <= i < rows.len() && (#[trigger] rows[i]).test.name == t.name) ==> undone(
            front.push(t),
            rows,
        ) == undone(front, rows),
        !(exists|i: int| 0 <= i < rows.len() && (#[trigger] rows[i]).test.name == t.name)
            ==> undone(front.push(t), rows) == undone(front, rows).push(t),
        undone(Seq::empty(), rows) == Seq::<TestView>::empty(),
{
    reveal(Seq::filter);
    assert(front.push(t).drop_last() =~= front);
    assert(undone(Seq::empty(), rows) =~= Seq::<TestView>::empty());
}

/// A round that is over adds its results behind those that there are; a suite
/// that took too long adds the tests that are left over, and has ended.
pub proof fn rounds_add_their_results(v: LoopView, round: Seq<TestResultsView>)
    ensures
        ({
            let after = after_round(v, round);
            &&& after.suite == v.suite
            &&& after.error == v.error
            &&& after.timed_out == v.timed_out
            &&& !v.timed_out ==> after.tests == v.tests + round && after.step == SuiteStep::Round
            &&& v.timed_out ==> after.step == SuiteStep::Done && after.left.len() == 0
            &&& v.timed_out ==> forall|k: int|
                (v.tests + round).len() <= k < after.tests.len() ==> {
                    &&& (#[trigger] after.tests[k]).retcode == 32
                    &&& after.tests[k].skipped == 1
                    &&& v.suite.tests.contains(after.tests[k].test)
                }
        }),
{
    let after = after_round(v, round);
    let tests = v.tests + round;
    let left = undone(v.suite.tests, tests);
    if v.timed_out {
        assert forall|k: int| tests.len() <= k < after.tests.len() implies {
            &&& (#[trigger] after.tests[k]).retcode == 32
            &&& after.tests[k].skipped == 1
            &&& v.suite.tests.contains(after.tests[k].test)
        } by {
            let i = k - tests.len();
            assert(after.tests[k] == all_left_over(left)[i]);
            left_is_of_suite(v.suite.tests, tests, i);
        }
    }
}

/// Results of a suite are those of its tests, and what is known of the target
/// stands under its own name: a key that is not there leaves its entry open.
pub proof fn target_is_described(
    suite: SuiteView,
    tests: Seq<TestResultsView>,
    info: Map<Seq<char>, Seq<char>>,
)
    ensures
        ({
            let r = suite_result(suite, tests, info);
            let says = |key: Seq<char>, entry: Option<Seq<char>>|
                match entry {
                    Some(value) => info.dom().contains(key) && info[key] == value,
                    None => !info.dom().contains(key),
                };
            &&& r.suite == suite
            &&& r.tests == tests
            &&& says("distro"@, r.distro)
            &&& says("distro_ver"@, r.distro_ver)
            &&& says("kernel"@, r.kernel)
            &&& says("cmdline"@, r.cmdline)
            &&& says("arch"@, r.arch)
            &&& says("cpu"@, r.cpu)
            &&& says("swap"@, r.swap)
            &&& says("ram"@, r.ram)
        }),
{
}

/// The target is restarted after a panic, a taint or a timeout of the kernel,
/// and after no other error.
pub proof fn kernel_errors_are_told_apart(e: ErrorView)
    ensures
        is_kernel_error(e) <==> (match e {
            ErrorView::KernelPanic(_) => true,
            ErrorView::KernelTainted(_) => true,
            ErrorView::KernelTimeout(_) => true,
            ErrorView::Plugin(_) => false,
            ErrorView::Communication(_) => false,
            ErrorView::Sut(_) => false,
            ErrorView::Framework(_) => false,
            ErrorView::Exporter(_) => false,
            ErrorView::Ltx(_) => false,
            ErrorView::Scheduler(_) => false,
            ErrorView::Session(_) => false,
        }),
{
}

} // verus!
