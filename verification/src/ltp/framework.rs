//! The framework: environment of the tests, search for commands and suites,
//! and reading of results.

use crate::com::CmdResult;
use crate::data;
use crate::data::Suite;
use crate::data::SuiteView;
use crate::data::Test;
use crate::data::TestView;
use crate::dict;
use crate::dict::Dict;
use crate::dict::DictNumber;
use crate::dict::DictValue;
use crate::dict::DictView;
use crate::errors::ErrorView;
use crate::errors::KirkError;
use crate::ltp::parse;
use crate::ltp::parse::Counts;
use crate::ltp::parse::MAX_METADATA_BYTES;
use crate::ltp::parse::MAX_STDOUT_BYTES;
use crate::results::ResultStatus;
use crate::results::TestResults;
use crate::results::TestResultsView;
use crate::text;
use crate::textmap;
use crate::textmap::TextMap;
use vstd::arithmetic::power2::pow2;
use vstd::prelude::*;
use vstd::string::*;

verus! {

/// Tags whose presence marks a test as one that cannot run in parallel.
pub const PARALLEL_BLACKLIST: [&'static str; 8] = [
    "needs_root",
    "needs_device",
    "mount_device",
    "mntpoint",
    "resource_file",
    "format_device",
    "save_restore",
    "max_runtime",
];

/// Environment variables without a known prefix that are forwarded.
pub const SUPPORTED_ENV: [&'static str; 36] = [
    "PATH",
    "KCONFIG_PATH",
    "KCONFIG_SKIP_CHECK",
    "RHOST",
    "IPV4_LHOST",
    "IPV4_RHOST",
    "IPV6_LHOST",
    "IPV6_RHOST",
    "LHOST_IFACES",
    "RHOST_IFACES",
    "NS_DURATION",
    "NS_TIMES",
    "CONNECTION_TOTAL",
    "IP_TOTAL",
    "IP_TOTAL_FOR_TCPIP",
    "ROUTE_TOTAL",
    "ROUTE_CHANGE_IP",
    "ROUTE_CHANGE_NETLINK",
    "MTU_CHANGE_TIMES",
    "IF_UPDOWN_TIMES",
    "PING_MAX",
    "NS_ICMPV4_SENDER_DATA_MAXSIZE",
    "NS_ICMPV6_SENDER_DATA_MAXSIZE",
    "MCASTNUM_NORMAL",
    "MCASTNUM_HEAVY",
    "DOWNLOAD_BIGFILESIZE",
    "DOWNLOAD_REGFILESIZE",
    "UPLOAD_BIGFILESIZE",
    "UPLOAD_REGFILESIZE",
    "HTTP_DOWNLOAD_DIR",
    "FTP_DOWNLOAD_DIR",
    "FTP_UPLOAD_DIR",
    "FTP_UPLOAD_URLDIR",
    "IPSEC_MODE",
    "IPSEC_PROTO",
    "VIRT_PERF_THRESHOLD",
];

/// Whether `key` is in a list.
pub open spec fn is_listed(list: Seq<&'static str>, key: Seq<char>) -> bool {
    exists|i: int| 0 <= i < list.len() && (#[trigger] list[i])@ == key
}

fn listed(list: &[&'static str], key: &str) -> (r: bool)
    ensures
        r == is_listed(list@, key@),
{
    let mut i: usize = 0;
    while i < list.len()
        invariant
            i <= list@.len(),
            forall|j: int| 0 <= j < i ==> (#[trigger] list@[j])@ != key@,
        decreases list@.len() - i,
    {
        if text::same(list[i], key) {
            assert(list@[i as int]@ == key@);
            return true;
        }
        i = i + 1;
    }
    false
}

/// Whether a variable is set explicitly.
pub open spec fn is_preset(key: Seq<char>) -> bool {
    key == "LTPROOT"@ || key == "TMPDIR"@ || key == "LTP_COLORIZE_OUTPUT"@ || key
        == "LTP_TIMEOUT_MUL"@
}

/// Whether a variable of the runner is forwarded to the tests.
pub open spec fn is_forwarded(key: Seq<char>) -> bool {
    !is_preset(key) && (is_listed(SUPPORTED_ENV@, key) || "LTP_"@.is_prefix_of(key)
        || "TST_"@.is_prefix_of(key))
}

/// Value of a variable, or a default.
pub open spec fn value_or(
    vars: Map<Seq<char>, Seq<char>>,
    key: Seq<char>,
    default: Seq<char>,
) -> Seq<char> {
    if vars.dom().contains(key) {
        vars[key]
    } else {
        default
    }
}

/// Value of a variable in the environment of the tests, given the variables
/// of the runner and the multiplier for timeouts that stands in where the
/// runner has none.
pub open spec fn env_value(
    root: Seq<char>,
    vars: Map<Seq<char>, Seq<char>>,
    multiplier: Option<Seq<char>>,
    key: Seq<char>,
) -> Option<Seq<char>> {
    if key == "LTPROOT"@ {
        Some(root)
    } else if key == "TMPDIR"@ {
        Some(value_or(vars, "TMPDIR"@, "/tmp"@))
    } else if key == "LTP_COLORIZE_OUTPUT"@ {
        Some(value_or(vars, "LTP_COLORIZE_OUTPUT"@, "1"@))
    } else if key == "LTP_TIMEOUT_MUL"@ {
        if vars.dom().contains(key) {
            Some(vars[key])
        } else {
            multiplier
        }
    } else if is_forwarded(key) && vars.dom().contains(key) {
        Some(vars[key])
    } else {
        None
    }
}

/// Environment of the tests.
pub open spec fn test_env(
    root: Seq<char>,
    vars: Map<Seq<char>, Seq<char>>,
    multiplier: Option<Seq<char>>,
) -> Map<Seq<char>, Seq<char>> {
    Map::new(
        |key: Seq<char>| env_value(root, vars, multiplier, key) is Some,
        |key: Seq<char>| env_value(root, vars, multiplier, key)->0,
    )
}

proof fn preset_names_differ()
    ensures
        "LTPROOT"@ != "TMPDIR"@,
        "LTPROOT"@ != "LTP_COLORIZE_OUTPUT"@,
        "LTPROOT"@ != "LTP_TIMEOUT_MUL"@,
        "TMPDIR"@ != "LTP_COLORIZE_OUTPUT"@,
        "TMPDIR"@ != "LTP_TIMEOUT_MUL"@,
        "LTP_COLORIZE_OUTPUT"@ != "LTP_TIMEOUT_MUL"@,
{
    reveal_strlit("LTPROOT");
    reveal_strlit("TMPDIR");
    reveal_strlit("LTP_COLORIZE_OUTPUT");
    reveal_strlit("LTP_TIMEOUT_MUL");
    assert("LTPROOT"@.len() == 7);
    assert("TMPDIR"@.len() == 6);
    assert("LTP_COLORIZE_OUTPUT"@.len() == 19);
    assert("LTP_TIMEOUT_MUL"@.len() == 15);
}

fn forwarded(key: &str) -> (r: bool)
    ensures
        r == is_forwarded(key@),
{
    let preset = text::same(key, "LTPROOT") || text::same(key, "TMPDIR") || text::same(
        key,
        "LTP_COLORIZE_OUTPUT",
    ) || text::same(key, "LTP_TIMEOUT_MUL");
    let supported = SUPPORTED_ENV;
    !preset && (listed(supported.as_slice(), key) || text::starts_with(key, "LTP_")
        || text::starts_with(key, "TST_"))
}

fn build_env(root: &str, vars: &TextMap, multiplier: Option<&str>) -> (env: TextMap)
    ensures
        env@ == test_env(root@, vars@, text::opt_str(multiplier)),
{
    proof {
        preset_names_differ();
    }
    let mut env = TextMap::new();
    env.insert("LTPROOT", root);
    match vars.get("TMPDIR") {
        Some(value) => env.insert("TMPDIR", value),
        None => env.insert("TMPDIR", "/tmp"),
    }
    match vars.get("LTP_COLORIZE_OUTPUT") {
        Some(value) => env.insert("LTP_COLORIZE_OUTPUT", value),
        None => env.insert("LTP_COLORIZE_OUTPUT", "1"),
    }
    match vars.get("LTP_TIMEOUT_MUL") {
        Some(value) => env.insert("LTP_TIMEOUT_MUL", value),
        None => match multiplier {
            Some(value) => env.insert("LTP_TIMEOUT_MUL", value),
            None => {},
        },
    }
    let ghost mul = text::opt_str(multiplier);
    let mut i: usize = 0;
    while i < vars.len()
        invariant
            i <= vars.list().len(),
            mul == text::opt_str(multiplier),
            forall|k: Seq<char>|
                is_preset(k) && env_value(root@, vars@, mul, k) is Some ==> #[trigger] env@.dom().contains(k),
            forall|k: Seq<char>| #[trigger]
                env@.dom().contains(k) ==> env_value(root@, vars@, mul, k) == Some(env@[k]),
            forall|j: int|
                0 <= j < i && is_forwarded((#[trigger] vars.list()[j]).0) ==> env@.dom().contains(
                    vars.list()[j].0,
                ),
        decreases vars.list().len() - i,
    {
        let key = vars.key_at(i);
        let value = vars.value_at(i);
        if forwarded(key) {
            env.insert(key, value);
        }
        i = i + 1;
    }
    proof {
        vars.list_is_map();
        let all = test_env(root@, vars@, mul);
        assert forall|k: Seq<char>| all.dom().contains(k) implies env@.dom().contains(k) by {
            if !is_preset(k) {
                assert(textmap::has_key(vars.list(), k));
            }
        }
        assert(env@ =~= all);
    }
    env
}

/// What is known of the test with the given name, by tag, given the metadata.
pub open spec fn known_test(metadata: DictView, name: Seq<char>) -> Option<
    Seq<(Seq<char>, DictView)>,
> {
    match metadata {
        DictView::Dict(all) => match dict::found(all, "tests"@) {
            Some(DictView::Dict(tests)) => match dict::found(tests, name) {
                Some(DictView::Dict(params)) => Some(params),
                _ => None,
            },
            _ => None,
        },
        _ => None,
    }
}

fn nested<'a>(value: &'a DictValue, key: &str) -> (r: Option<&'a Dict>)
    ensures
        match dict::value_view(*value) {
            DictView::Dict(all) => match dict::found(all, key@) {
                Some(DictView::Dict(inner)) => r matches Some(d) && d.contents() == inner,
                _ => r is None,
            },
            _ => r is None,
        },
{
    match value {
        DictValue::Dict(all) => {
            proof {
                all.contents_hold_values(key@);
            }
            match all.get(key) {
                Some(DictValue::Dict(inner)) => Some(inner),
                _ => None,
            }
        },
        _ => None,
    }
}

fn find_metadata<'a>(metadata: &'a DictValue, name: &str) -> (r: Option<&'a Dict>)
    ensures
        match known_test(dict::value_view(*metadata), name@) {
            Some(params) => r matches Some(d) && d.contents() == params,
            None => r is None,
        },
{
    match nested(metadata, "tests") {
        Some(tests) => {
            proof {
                tests.contents_hold_values(name@);
            }
            match tests.get(name) {
                Some(DictValue::Dict(params)) => Some(params),
                _ => None,
            }
        },
        None => None,
    }
}

/// A text under `max_runtime`, and the double that it denotes, if any.
#[derive(Debug, Clone, PartialEq, Eq)]
pub struct Runtime {
    /// The text.
    pub text: String,
    /// Bits of the double.
    pub bits: Option<u64>,
}

/// Bits of the double that a text denotes, where it is among the runtimes.
pub open spec fn denoted(runtimes: Seq<Runtime>, text: Seq<char>) -> Option<u64>
    decreases runtimes.len(),
{
    if runtimes.len() == 0 {
        None
    } else if runtimes[0].text@ == text {
        runtimes[0].bits
    } else {
        denoted(runtimes.skip(1), text)
    }
}

fn find_runtime(runtimes: &Vec<Runtime>, text: &str) -> (r: Option<u64>)
    ensures
        r == denoted(runtimes@, text@),
{
    let mut i: usize = 0;
    assert(runtimes@.skip(0) =~= runtimes@);
    while i < runtimes.len()
        invariant
            i <= runtimes@.len(),
            denoted(runtimes@, text@) == denoted(runtimes@.skip(i as int), text@),
        decreases runtimes@.len() - i,
    {
        assert(runtimes@.skip(i as int)[0] == runtimes@[i as int]);
        assert(runtimes@.skip(i as int).skip(1) =~= runtimes@.skip(i + 1));
        if text::same(runtimes[i].text.as_str(), text) {
            return runtimes[i].bits;
        }
        i = i + 1;
    }
    None
}

/// Text under `max_runtime`, if there is one.
pub open spec fn runtime_text(test: DictView) -> Option<Seq<char>> {
    match test {
        DictView::Dict(params) => match dict::found(params, "max_runtime"@) {
            Some(DictView::Text(s)) => Some(s),
            _ => None,
        },
        _ => None,
    }
}

/// Texts under `max_runtime` of tests.
pub open spec fn texts_of_tests(tests: Seq<(Seq<char>, DictView)>) -> Seq<Seq<char>>
    decreases tests.len(),
{
    if tests.len() == 0 {
        Seq::empty()
    } else {
        let before = texts_of_tests(tests.drop_last());
        match runtime_text(tests.last().1) {
            Some(s) => before.push(s),
            None => before,
        }
    }
}

/// Texts under `max_runtime` in the metadata.
pub open spec fn texts_in(metadata: DictView) -> Seq<Seq<char>> {
    match metadata {
        DictView::Dict(all) => match dict::found(all, "tests"@) {
            Some(DictView::Dict(tests)) => texts_of_tests(tests),
            _ => Seq::empty(),
        },
        _ => Seq::empty(),
    }
}

proof fn found_is_listed(tests: Seq<(Seq<char>, DictView)>, name: Seq<char>)
    requires
        dict::found(tests, name) matches Some(test) && runtime_text(test) is Some,
    ensures
        texts_of_tests(tests).contains(runtime_text(dict::found(tests, name)->0)->0),
    decreases tests.len(),
{
    let all = texts_of_tests(tests);
    if tests.last().0 == name {
        assert(all.last() == runtime_text(tests.last().1)->0);
    } else {
        found_is_listed(tests.drop_last(), name);
        let before = texts_of_tests(tests.drop_last());
        let s = runtime_text(dict::found(tests, name)->0)->0;
        let k = choose|k: int| 0 <= k < before.len() && before[k] == s;
        assert(all[k] == s);
    }
}

/// The text under `max_runtime` of every known test is among those that are
/// listed.
pub proof fn runtimes_are_listed(metadata: DictView, name: Seq<char>)
    requires
        known_test(metadata, name) matches Some(params) && runtime_text(DictView::Dict(params))
            is Some,
    ensures
        texts_in(metadata).contains(
            runtime_text(DictView::Dict(known_test(metadata, name)->0))->0,
        ),
{
    match metadata {
        DictView::Dict(all) => match dict::found(all, "tests"@) {
            Some(DictView::Dict(tests)) => found_is_listed(tests, name),
            _ => {},
        },
        _ => {},
    }
}

/// List the texts under `max_runtime` in the metadata.
pub fn runtime_texts(metadata: &DictValue) -> (r: Vec<String>)
    ensures
        text::texts(r@) == texts_in(dict::value_view(*metadata)),
{
    broadcast use text::texts_push;

    let mut texts: Vec<String> = Vec::new();
    assert(text::texts(texts@) =~= Seq::<Seq<char>>::empty());
    let tests = match nested(metadata, "tests") {
        Some(tests) => tests,
        None => {
            return texts;
        },
    };
    let ghost all = tests.contents();
    let mut i: usize = 0;
    assert(all.take(0) =~= Seq::<(Seq<char>, DictView)>::empty());
    while i < tests.len()
        invariant
            i <= all.len(),
            all == tests.contents(),
            text::texts(texts@) == texts_of_tests(all.take(i as int)),
        decreases all.len() - i,
    {
        proof {
            assert(all.take(i + 1).drop_last() =~= all.take(i as int));
            assert(all.take(i + 1).last() == all[i as int]);
        }
        match tests.value_at(i) {
            DictValue::Dict(params) => {
                proof {
                    params.contents_hold_values("max_runtime"@);
                }
                match params.get("max_runtime") {
                    Some(DictValue::Text(s)) => texts.push(s.clone()),
                    _ => {},
                }
            },
            _ => {},
        }
        i = i + 1;
    }
    assert(all.take(all.len() as int) =~= all);
    texts
}

/// Bits of the double that a number is.
pub open spec fn number_bits(n: DictNumber) -> u64 {
    match n {
        DictNumber::Unsigned(n) => dict::nearest_double(n as int),
        DictNumber::Negative(n) => dict::nearest_double(n as int),
        DictNumber::Double(bits) => bits,
    }
}

/// Bits of one as a double.
pub const ONE: u64 = 0x3ff0_0000_0000_0000;

/// Whether a test that takes at most `runtime` is kept, where tests that take
/// `limit` or more are not. A limit of zero keeps every test.
pub open spec fn is_kept(
    limit: u64,
    runtime: Option<DictView>,
    parsed: Option<u64>,
) -> Result<bool, ErrorView> {
    if dict::is_zero(limit) {
        Ok(true)
    } else {
        match runtime {
            Some(DictView::Number(n)) => Ok(!dict::at_least(number_bits(n), limit)),
            Some(DictView::Text(s)) => match parsed {
                Some(bits) => Ok(!dict::at_least(bits, limit)),
                None => Err(
                    ErrorView::Framework("metadata contains wrong max_runtime value: "@ + s),
                ),
            },
            Some(DictView::Bool(b)) => Ok(
                !dict::at_least(
                    if b {
                        ONE
                    } else {
                        0
                    },
                    limit,
                ),
            ),
            _ => Ok(true),
        }
    }
}

/// Tests whose `max_runtime` is a whole number are kept exactly where it is
/// below a limit that is a whole number, or where the limit is zero.
pub proof fn whole_runtimes_are_compared(limit: nat, runtime: nat, parsed: Option<u64>)
    requires
        limit < dict::EXACT_LIMIT,
        runtime < dict::EXACT_LIMIT,
    ensures
        is_kept(
            dict::exact_double(limit),
            Some(DictView::Number(DictNumber::Unsigned(runtime as u64))),
            parsed,
        ) == Ok::<bool, ErrorView>(limit == 0 || runtime < limit),
        runtime > 0 ==> is_kept(
            dict::exact_double(limit),
            Some(DictView::Number(DictNumber::Negative(-(runtime as i64) as i64))),
            parsed,
        ) == Ok::<bool, ErrorView>(true),
{
    dict::exact_double_is_the_number(limit);
    dict::exact_double_is_the_number(runtime);
    dict::exact_doubles_keep_order(runtime, limit);
}

/// Whether a tag of the metadata keeps a test from running in parallel.
pub open spec fn runs_alone(params: Seq<(Seq<char>, DictView)>) -> bool {
    exists|i: int|
        0 <= i < PARALLEL_BLACKLIST@.len() && dict::found(
            params,
            (#[trigger] PARALLEL_BLACKLIST@[i])@,
        ) is Some
}

fn has_blacklisted(params: &Dict) -> (r: bool)
    ensures
        r == runs_alone(params.contents()),
{
    let tags = PARALLEL_BLACKLIST;
    let mut i: usize = 0;
    while i < 8
        invariant
            i <= 8,
            tags@ == PARALLEL_BLACKLIST@,
            tags@.len() == 8,
            forall|j: int|
                0 <= j < i ==> dict::found(
                    params.contents(),
                    (#[trigger] PARALLEL_BLACKLIST@[j])@,
                ) is None,
        decreases 8 - i,
    {
        proof {
            params.contents_hold_values(PARALLEL_BLACKLIST@[i as int]@);
        }
        if params.get(tags[i]).is_some() {
            return true;
        }
        i = i + 1;
    }
    false
}

/// Whether a command has run and succeeded.
pub open spec fn succeeded(reply: Option<CmdResult>) -> bool {
    reply matches Some(r) && r.returncode == 0
}

/// Whether a command has run and succeeded.
pub fn is_success(reply: &Option<CmdResult>) -> (r: bool)
    ensures
        r == succeeded(*reply),
{
    match reply {
        Some(result) => result.returncode == 0,
        None => false,
    }
}

/// Linux Test Project framework.
#[derive(Debug)]
pub struct LtpFramework {
    max_runtime: u64,
    root: String,
    tc_folder: String,
    env: TextMap,
}

/// What a framework holds.
#[verifier::ext_equal]
pub struct LtpView {
    /// Limit on the time that a test takes, as the bits of a double.
    pub max_runtime: u64,
    /// Root of the installation.
    pub root: Seq<char>,
    /// Folder of the test binaries.
    pub tc_folder: Seq<char>,
    /// Environment of the tests.
    pub env: Map<Seq<char>, Seq<char>>,
}

impl View for LtpFramework {
    type V = LtpView;

    closed spec fn view(&self) -> LtpView {
        LtpView {
            max_runtime: self.max_runtime,
            root: self.root@,
            tc_folder: self.tc_folder@,
            env: self.env@,
        }
    }
}

/// Framework at the given root.
pub open spec fn framework_at(
    root: Seq<char>,
    max_runtime: u64,
    vars: Map<Seq<char>, Seq<char>>,
    multiplier: Option<Seq<char>>,
) -> LtpView {
    LtpView {
        max_runtime,
        root,
        tc_folder: root + "/testcases/bin"@,
        env: test_env(root, vars, multiplier),
    }
}

/// Environment of the tests with their folder at the end of `PATH`, given the
/// reply of the target to the question for its `PATH`, which is asked where
/// the environment has none.
pub open spec fn path_env(f: LtpView, reported: Option<CmdResult>) -> Result<
    Map<Seq<char>, Seq<char>>,
    ErrorView,
> {
    if f.env.dom().contains("PATH"@) {
        Ok(f.env.insert("PATH"@, f.env["PATH"@] + ":"@ + f.tc_folder))
    } else if succeeded(reported) {
        Ok(
            f.env.insert(
                "PATH"@,
                text::trimmed(reported->0.stdout@) + ":"@ + f.tc_folder,
            ),
        )
    } else {
        Err(ErrorView::Framework("Can't read PATH variable"@))
    }
}

/// Bits of the double under `max_runtime`, where there is a text that denotes
/// one.
pub open spec fn known_runtime(
    params: Seq<(Seq<char>, DictView)>,
    runtimes: Seq<Runtime>,
) -> Option<u64> {
    match runtime_text(DictView::Dict(params)) {
        Some(s) => denoted(runtimes, s),
        None => None,
    }
}

/// Test that a line of a runtest file defines, if any: blank lines and
/// comments define none, and a test that takes too long is left out.
pub open spec fn line_test(
    f: LtpView,
    line: Seq<char>,
    env: Map<Seq<char>, Seq<char>>,
    metadata: DictView,
    runtimes: Seq<Runtime>,
) -> Result<Option<TestView>, ErrorView> {
    let l = text::trimmed(line);
    let words = parse::runtest_words(l);
    if l.len() == 0 || l[0] == '#' {
        Ok(None)
    } else if words.len() < 2 {
        Err(ErrorView::Framework("runtest file is not defining test command"@))
    } else {
        let known = known_test(metadata, words[0]);
        let kept = match known {
            Some(params) => is_kept(
                f.max_runtime,
                dict::found(params, "max_runtime"@),
                known_runtime(params, runtimes),
            ),
            None => Ok(true),
        };
        match kept {
            Err(e) => Err(e),
            Ok(false) => Ok(None),
            Ok(true) => Ok(
                Some(
                    TestView {
                        name: words[0],
                        command: words[1],
                        cwd: Some(f.tc_folder),
                        env,
                        args: words.skip(2),
                        parallelizable: known matches Some(params) && !runs_alone(params),
                    },
                ),
            ),
        }
    }
}

/// Tests that the lines of a runtest file define.
pub open spec fn lines_tests(
    f: LtpView,
    lines: Seq<Seq<char>>,
    env: Map<Seq<char>, Seq<char>>,
    metadata: DictView,
    runtimes: Seq<Runtime>,
) -> Result<Seq<TestView>, ErrorView>
    decreases lines.len(),
{
    if lines.len() == 0 {
        Ok(Seq::empty())
    } else {
        match lines_tests(f, lines.drop_last(), env, metadata, runtimes) {
            Err(e) => Err(e),
            Ok(tests) => match line_test(f, lines.last(), env, metadata, runtimes) {
                Err(e) => Err(e),
                Ok(None) => Ok(tests),
                Ok(Some(t)) => Ok(tests.push(t)),
            },
        }
    }
}

/// Suite that a runtest file defines.
pub open spec fn runtest_suite(
    f: LtpView,
    name: Seq<char>,
    content: Seq<char>,
    metadata: DictView,
    runtimes: Seq<Runtime>,
    reported: Option<CmdResult>,
) -> Result<SuiteView, ErrorView> {
    match path_env(f, reported) {
        Err(e) => Err(e),
        Ok(env) => match lines_tests(f, text::pieces(content, '\n'), env, metadata, runtimes) {
            Err(e) => Err(e),
            Ok(tests) => Ok(SuiteView { name, tests }),
        },
    }
}

proof fn lines_error_stays(
    f: LtpView,
    lines: Seq<Seq<char>>,
    env: Map<Seq<char>, Seq<char>>,
    metadata: DictView,
    runtimes: Seq<Runtime>,
    i: int,
)
    requires
        0 <= i <= lines.len(),
        lines_tests(f, lines.take(i), env, metadata, runtimes) is Err,
    ensures
        lines_tests(f, lines, env, metadata, runtimes) == lines_tests(f, lines.take(i), env, metadata, runtimes),
    decreases lines.len() - i,
{
    if i == lines.len() {
        assert(lines.take(i) =~= lines);
    } else {
        assert(lines.take(i + 1).drop_last() =~= lines.take(i));
        lines_error_stays(f, lines, env, metadata, runtimes, i + 1);
    }
}

/// Counters of a test: those of its summary, or else by its markers. Where
/// all are zero, the return code decides; one of -1 is always broken.
pub open spec fn result_counts(stdout: Seq<char>, retcode: i32) -> Counts {
    let found = match parse::summary_counts(stdout) {
        Some(counts) => counts,
        None => parse::marked_counts(stdout),
    };
    let counts = if found != parse::no_counts() {
        found
    } else if retcode == 0 {
        Counts { passed: 1, ..found }
    } else if retcode == 4 {
        Counts { warnings: 1, ..found }
    } else if retcode == 32 {
        Counts { skipped: 1, ..found }
    } else if retcode == -1 {
        found
    } else {
        Counts { failed: 1, ..found }
    };
    if retcode == -1 {
        Counts { broken: 1, ..counts }
    } else {
        counts
    }
}

/// Results of a test, from its output and return code.
pub open spec fn result_of(
    test: TestView,
    output: Seq<char>,
    retcode: i32,
    exec_time: u64,
) -> TestResultsView {
    let stdout = parse::stripped(parse::cut(output, MAX_STDOUT_BYTES as nat));
    let counts = result_counts(stdout, retcode);
    TestResultsView {
        test,
        failed: counts.failed,
        passed: counts.passed,
        broken: counts.broken,
        skipped: counts.skipped,
        warnings: counts.warnings,
        exec_time,
        status: parse::status_of(retcode),
        retcode,
        stdout,
    }
}

/// A test that says nothing of its results still counts: exactly one counter
/// is one.
pub proof fn silent_test_counts(stdout: Seq<char>, retcode: i32)
    requires
        parse::summary_counts(stdout) is None,
        parse::marked_counts(stdout) == parse::no_counts(),
    ensures
        ({
            let c = result_counts(stdout, retcode);
            c.passed + c.failed + c.broken + c.skipped + c.warnings == 1
        }),
{
}

/// A step of the search for the suites of the target.
#[derive(Debug, Clone, Copy, PartialEq, Eq, Structural)]
pub enum SuitesStep {
    /// Look for the installation.
    ProbeRoot,
    /// Look for the runtest directory.
    ProbeRuntest,
    /// List the runtest directory.
    List,
}

/// What a step of the search for suites leads to.
#[derive(Debug)]
pub enum SuitesNext {
    /// The next step.
    Ask(SuitesStep),
    /// Names of the suites.
    Done(Vec<String>),
}

/// Command of a step.
pub open spec fn suites_request(f: LtpView, step: SuitesStep) -> Seq<char> {
    match step {
        SuitesStep::ProbeRoot => "test -d "@ + f.root,
        SuitesStep::ProbeRuntest => "test -d "@ + f.root + "/runtest"@,
        SuitesStep::List => "ls --format=single-column "@ + f.root + "/runtest"@,
    }
}

/// Lines that are not empty.
pub open spec fn full_lines(lines: Seq<Seq<char>>) -> Seq<Seq<char>> {
    lines.filter(|l: Seq<char>| l.len() > 0)
}

/// Error for a missing installation.
pub open spec fn no_root(f: LtpView) -> ErrorView {
    ErrorView::Framework("LTP folder doesn't exist: "@ + f.root)
}

/// A step of the search for one suite.
#[derive(Debug, Clone, Copy, PartialEq, Eq, Structural)]
pub enum SuiteStep {
    /// Look for the installation.
    ProbeRoot,
    /// Look for the runtest file.
    ProbeSuite,
    /// Fetch the runtest file.
    FetchSuite,
    /// Look for the metadata.
    ProbeMetadata,
    /// Fetch the metadata.
    FetchMetadata,
    /// Ask the target for its `PATH`.
    AskPath,
    /// Build the suite from what was fetched.
    Build,
}

/// Path of the runtest file of a suite.
pub open spec fn suite_path(f: LtpView, name: Seq<char>) -> Seq<char> {
    f.root + "/runtest/"@ + name
}

/// Path of the metadata.
pub open spec fn metadata_path(f: LtpView) -> Seq<char> {
    f.root + "/metadata/ltp.json"@
}

/// Command to run in a step, or path to fetch.
pub open spec fn suite_request(f: LtpView, name: Seq<char>, step: SuiteStep) -> Seq<char> {
    match step {
        SuiteStep::ProbeRoot => "test -d "@ + f.root,
        SuiteStep::ProbeSuite => "test -f "@ + suite_path(f, name),
        SuiteStep::FetchSuite => suite_path(f, name),
        SuiteStep::ProbeMetadata => "test -f "@ + metadata_path(f),
        SuiteStep::FetchMetadata => metadata_path(f),
        SuiteStep::AskPath => "echo -n $PATH"@,
        SuiteStep::Build => Seq::empty(),
    }
}

/// Step that follows the metadata.
pub open spec fn before_build(f: LtpView) -> SuiteStep {
    if f.env.dom().contains("PATH"@) {
        SuiteStep::Build
    } else {
        SuiteStep::AskPath
    }
}

/// Step that follows `step`, given whether its command succeeded and the
/// number of bytes that it fetched.
pub open spec fn suite_after(
    f: LtpView,
    name: Seq<char>,
    step: SuiteStep,
    found: bool,
    size: usize,
) -> Result<SuiteStep, ErrorView> {
    match step {
        SuiteStep::ProbeRoot => if found {
            Ok(SuiteStep::ProbeSuite)
        } else {
            Err(no_root(f))
        },
        SuiteStep::ProbeSuite => if found {
            Ok(SuiteStep::FetchSuite)
        } else {
            Err(ErrorView::Framework("'"@ + name + "' suite doesn't exist"@))
        },
        SuiteStep::FetchSuite => Ok(SuiteStep::ProbeMetadata),
        SuiteStep::ProbeMetadata => if found {
            Ok(SuiteStep::FetchMetadata)
        } else {
            Ok(before_build(f))
        },
        SuiteStep::FetchMetadata => if size > MAX_METADATA_BYTES {
            Err(ErrorView::Framework("ltp.json exceeds 8388608 byte cap"@))
        } else {
            Ok(before_build(f))
        },
        SuiteStep::AskPath => Ok(SuiteStep::Build),
        SuiteStep::Build => Ok(SuiteStep::Build),
    }
}

/// Steps that can still follow in the search for a suite.
pub open spec fn suite_rank(step: SuiteStep) -> nat {
    match step {
        SuiteStep::ProbeRoot => 6,
        SuiteStep::ProbeSuite => 5,
        SuiteStep::FetchSuite => 4,
        SuiteStep::ProbeMetadata => 3,
        SuiteStep::FetchMetadata => 2,
        SuiteStep::AskPath => 1,
        SuiteStep::Build => 0,
    }
}

/// The search for a suite ends, and never fetches metadata past the cap.
pub proof fn suite_search_ends(
    f: LtpView,
    name: Seq<char>,
    step: SuiteStep,
    found: bool,
    size: usize,
)
    requires
        step != SuiteStep::Build,
    ensures
        match suite_after(f, name, step, found, size) {
            Ok(next) => {
                &&& suite_rank(next) < suite_rank(step)
                &&& step == SuiteStep::FetchMetadata ==> size <= MAX_METADATA_BYTES
            },
            Err(_) => true,
        },
{
}

/// A test of a suite runs in parallel only where its metadata is known and
/// holds none of the tags that forbid it.
pub proof fn parallel_is_known(
    f: LtpView,
    line: Seq<char>,
    env: Map<Seq<char>, Seq<char>>,
    metadata: DictView,
    runtimes: Seq<Runtime>,
)
    ensures
        line_test(f, line, env, metadata, runtimes) matches Ok(Some(t)) ==> t.parallelizable ==> {
            &&& known_test(metadata, t.name) matches Some(params)
            &&& forall|i: int|
                0 <= i < PARALLEL_BLACKLIST@.len() ==> dict::found(
                    params,
                    (#[trigger] PARALLEL_BLACKLIST@[i])@,
                ) is None
        },
{
}

fn framework(message: &str) -> (e: KirkError)
    ensures
        e@ == ErrorView::Framework(message@),
{
    KirkError::Framework(text::owned(message))
}

impl LtpFramework {
    /// Framework at the root that the environment of the runner names, or at
    /// `/opt/ltp`.
    pub fn new(max_runtime: u64, vars: &TextMap, multiplier: Option<&str>) -> (r: Self)
        ensures
            r@ == framework_at(
                value_or(vars@, "LTPROOT"@, "/opt/ltp"@),
                max_runtime,
                vars@,
                text::opt_str(multiplier),
            ),
    {
        match vars.get("LTPROOT") {
            Some(root) => LtpFramework::with_root(root, max_runtime, vars, multiplier),
            None => LtpFramework::with_root("/opt/ltp", max_runtime, vars, multiplier),
        }
    }

    /// Framework at the given root.
    pub fn with_root(root: &str, max_runtime: u64, vars: &TextMap, multiplier: Option<&str>) -> (r:
        Self)
        ensures
            r@ == framework_at(root@, max_runtime, vars@, text::opt_str(multiplier)),
    {
        LtpFramework {
            max_runtime,
            root: root.to_owned(),
            tc_folder: text::cat2(root, "/testcases/bin"),
            env: build_env(root, vars, multiplier),
        }
    }

    /// Limit on the time that a test takes, as the bits of a double; zero
    /// disables it.
    pub fn max_runtime(&self) -> (r: u64)
        ensures
            r == self@.max_runtime,
    {
        self.max_runtime
    }

    /// Root of the installation.
    pub fn root(&self) -> (r: &str)
        ensures
            r@ == self@.root,
    {
        self.root.as_str()
    }

    /// Folder of the test binaries.
    pub fn tc_folder(&self) -> (r: &str)
        ensures
            r@ == self@.tc_folder,
    {
        self.tc_folder.as_str()
    }

    /// Environment of the tests.
    pub fn env(&self) -> (r: &TextMap)
        ensures
            r@ == self@.env,
    {
        &self.env
    }

    /// Mutable access to the environment of the tests.
    pub fn env_mut(&mut self) -> (r: &mut TextMap)
        ensures
            r@ == old(self)@.env,
            final(self)@ == (LtpView { env: final(r)@, ..old(self)@ }),
    {
        &mut self.env
    }

    /// Environment of the tests with their folder at the end of `PATH`.
    fn read_path(&self, reported: &Option<CmdResult>) -> (r: Result<TextMap, KirkError>)
        ensures
            match path_env(self@, *reported) {
                Ok(env) => r matches Ok(m) && m@ == env,
                Err(x) => r matches Err(e) && e@ == x,
            },
    {
        let mut env = self.env.clone();
        match self.env.get("PATH") {
            Some(path) => {
                let path = text::cat3(path, ":", self.tc_folder.as_str());
                env.insert("PATH", path.as_str());
                Ok(env)
            },
            None => match reported {
                Some(result) => {
                    if result.returncode == 0 {
                        let path = text::trim(result.stdout.as_str());
                        let path = text::cat3(path.as_str(), ":", self.tc_folder.as_str());
                        env.insert("PATH", path.as_str());
                        Ok(env)
                    } else {
                        Err(framework("Can't read PATH variable"))
                    }
                },
                None => Err(framework("Can't read PATH variable")),
            },
        }
    }

    /// Whether a test is kept, given its metadata and the double that the text
    /// under `max_runtime` denotes.
    pub fn is_addable(&self, params: &Dict, parsed: Option<u64>) -> (r: Result<bool, KirkError>)
        ensures
            match is_kept(
                self@.max_runtime,
                dict::found(params.contents(), "max_runtime"@),
                parsed,
            ) {
                Ok(kept) => r == Ok::<bool, KirkError>(kept),
                Err(x) => r matches Err(e) && e@ == x,
            },
    {
        if dict::double_is_zero(self.max_runtime) {
            return Ok(true);
        }
        proof {
            params.contents_hold_values("max_runtime"@);
        }
        let bits: u64 = match params.get("max_runtime") {
            Some(DictValue::Number(n)) => {
                match n {
                    DictNumber::Unsigned(n) => dict::integer_to_double(*n as i128),
                    DictNumber::Negative(n) => dict::integer_to_double(*n as i128),
                    DictNumber::Double(bits) => *bits,
                }
            },
            Some(DictValue::Text(s)) => match parsed {
                Some(bits) => bits,
                None => {
                    return Err(
                        KirkError::Framework(
                            text::cat2("metadata contains wrong max_runtime value: ", s.as_str()),
                        ),
                    );
                },
            },
            Some(DictValue::Bool(b)) => {
                if *b {
                    ONE
                } else {
                    0
                }
            },
            _ => {
                return Ok(true);
            },
        };
        Ok(!dict::double_at_least(bits, self.max_runtime))
    }

    /// Test that a line of a runtest file defines.
    fn read_line(
        &self,
        line: &str,
        env: &TextMap,
        metadata: &DictValue,
        runtimes: &Vec<Runtime>,
    ) -> (r: Result<Option<Test>, KirkError>)
        ensures
            match line_test(
                self@,
                line@,
                env@,
                dict::value_view(*metadata),
                runtimes@,
            ) {
                Err(x) => r matches Err(e) && e@ == x,
                Ok(None) => r matches Ok(None),
                Ok(Some(t)) => r matches Ok(Some(v)) && v@ == t,
            },
    {
        let l = text::trim(line);
        let c = text::chars_of(l.as_str());
        if c.len() == 0 || c[0] == '#' {
            return Ok(None);
        }
        let mut words = parse::split_cmd_args(l.as_str());
        let ghost all = parse::runtest_words(l@);
        proof {
            parse::words_have_characters(l@, 0);
            assert forall|k: int| 0 <= k < all.len() implies #[trigger] words@[k]@ == all[k] by {
                assert(text::texts(words@)[k] == words@[k]@);
            }
        }
        if words.len() < 2 {
            return Err(framework("runtest file is not defining test command"));
        }
        let args = words.split_off(2);
        assert(text::texts(args@) =~= all.skip(2));
        let name = words[0].as_str();
        let command = words[1].as_str();
        assert(all[0].len() > 0 && all[1].len() > 0);
        let mut parallelizable = false;
        match find_metadata(metadata, name) {
            Some(params) => {
                proof {
                    params.contents_hold_values("max_runtime"@);
                }
                let parsed = match params.get("max_runtime") {
                    Some(DictValue::Text(s)) => find_runtime(runtimes, s.as_str()),
                    _ => None,
                };
                match self.is_addable(params, parsed) {
                    Err(e) => {
                        return Err(e);
                    },
                    Ok(kept) => {
                        if !kept {
                            return Ok(None);
                        }
                    },
                }
                parallelizable = !has_blacklisted(params);
            },
            None => {},
        }
        match Test::new(name, command) {
            Err(e) => Err(e),
            Ok(test) => {
                let test = test.with_args(args).with_cwd(self.tc_folder.as_str()).with_env(
                    env.clone(),
                ).with_parallelizable(parallelizable);
                Ok(Some(test))
            },
        }
    }

    /// Parse a runtest file into a suite.
    pub fn read_runtest(
        &self,
        suite_name: &str,
        content: &str,
        metadata: &DictValue,
        runtimes: &Vec<Runtime>,
        reported: &Option<CmdResult>,
    ) -> (r: Result<Suite, KirkError>)
        ensures
            match runtest_suite(
                self@,
                suite_name@,
                content@,
                dict::value_view(*metadata),
                runtimes@,
                *reported,
            ) {
                Ok(suite) => r matches Ok(s) && s@ == suite,
                Err(x) => r matches Err(e) && e@ == x,
            },
    {
        let env = match self.read_path(reported) {
            Ok(env) => env,
            Err(e) => {
                return Err(e);
            },
        };
        let lines = text::split_on(content, '\n');
        let ghost all = text::pieces(content@, '\n');
        let ghost known = dict::value_view(*metadata);
        let mut tests: Vec<Test> = Vec::new();
        let mut i: usize = 0;
        assert(all.take(0) =~= Seq::<Seq<char>>::empty());
        assert(data::test_views(tests@) =~= Seq::<TestView>::empty());
        while i < lines.len()
            invariant
                i <= lines@.len(),
                all == text::pieces(content@, '\n'),
                known == dict::value_view(*metadata),
                text::texts(lines@) == all,
                path_env(self@, *reported) == Ok::<Map<Seq<char>, Seq<char>>, ErrorView>(env@),
                lines_tests(self@, all.take(i as int), env@, known, runtimes@) == Ok::<
                    Seq<TestView>,
                    ErrorView,
                >(data::test_views(tests@)),
            decreases lines@.len() - i,
        {
            proof {
                assert(all.take(i + 1).drop_last() =~= all.take(i as int));
                assert(all.take(i + 1).last() == lines@[i as int]@);
            }
            match self.read_line(lines[i].as_str(), &env, metadata, runtimes) {
                Err(e) => {
                    proof {
                        lines_error_stays(self@, all, env@, known, runtimes@, i + 1);
                    }
                    return Err(e);
                },
                Ok(None) => {},
                Ok(Some(test)) => {
                    let ghost before = tests@;
                    tests.push(test);
                    assert(data::test_views(tests@) =~= data::test_views(before).push(test@));
                },
            }
            i = i + 1;
        }
        assert(all.take(all.len() as int) =~= all);
        Ok(Suite::new(suite_name, tests))
    }

    /// Parse what was fetched of a runtest file into a suite.
    pub fn build_suite(
        &self,
        suite_name: &str,
        runtest: &[u8],
        metadata: &DictValue,
        runtimes: &Vec<Runtime>,
        reported: &Option<CmdResult>,
    ) -> (r: Result<Suite, KirkError>)
        ensures
            match runtest_suite(
                self@,
                suite_name@,
                text::lossy_text(runtest@),
                dict::value_view(*metadata),
                runtimes@,
                *reported,
            ) {
                Ok(suite) => r matches Ok(s) && s@ == suite,
                Err(x) => r matches Err(e) && e@ == x,
            },
    {
        let content = text::lossy(runtest);
        self.read_runtest(suite_name, content.as_str(), metadata, runtimes, reported)
    }

    /// Read the metadata of the tests.
    pub fn read_metadata(bytes: &[u8]) -> (r: Result<DictValue, KirkError>)
        ensures
            match dict::json_reading(bytes@) {
                Ok(view) => r matches Ok(v) && dict::value_view(v) == view,
                Err(reason) => r matches Err(e) && e@ == ErrorView::Framework(
                    "invalid ltp.json: "@ + reason,
                ),
            },
    {
        match dict::read_json(bytes) {
            Ok(value) => Ok(value),
            Err(reason) => Err(
                KirkError::Framework(text::cat2("invalid ltp.json: ", reason.as_str())),
            ),
        }
    }

    /// Command of a step of the search for suites.
    pub fn suites_command(&self, step: SuitesStep) -> (r: String)
        ensures
            r@ == suites_request(self@, step),
    {
        let root = self.root.as_str();
        match step {
            SuitesStep::ProbeRoot => text::cat2("test -d ", root),
            SuitesStep::ProbeRuntest => text::cat3("test -d ", root, "/runtest"),
            SuitesStep::List => text::cat3("ls --format=single-column ", root, "/runtest"),
        }
    }

    /// What a step of the search for suites leads to, given the reply to its
    /// command.
    pub fn get_suites(&self, step: SuitesStep, reply: &Option<CmdResult>) -> (r: Result<
        SuitesNext,
        KirkError,
    >)
        ensures
            match step {
                SuitesStep::ProbeRoot => if succeeded(*reply) {
                    r matches Ok(SuitesNext::Ask(SuitesStep::ProbeRuntest))
                } else {
                    r matches Err(e) && e@ == no_root(self@)
                },
                SuitesStep::ProbeRuntest => if succeeded(*reply) {
                    r matches Ok(SuitesNext::Ask(SuitesStep::List))
                } else {
                    r matches Err(e) && e@ == ErrorView::Framework(
                        "'"@ + (self@.root + "/runtest"@) + "' doesn't exist inside SUT"@,
                    )
                },
                SuitesStep::List => match *reply {
                    None => r matches Err(e) && e@ == ErrorView::Framework(
                        "Can't communicate with SUT"@,
                    ),
                    Some(result) => if result.returncode != 0 {
                        r matches Err(e) && e@ == ErrorView::Framework(
                            "command failed with: "@ + result.stdout@,
                        )
                    } else {
                        r matches Ok(SuitesNext::Done(v)) && text::texts(v@) == full_lines(
                            text::pieces(result.stdout@, '\n'),
                        )
                    },
                },
            },
    {
        match step {
            SuitesStep::ProbeRoot => {
                if is_success(reply) {
                    Ok(SuitesNext::Ask(SuitesStep::ProbeRuntest))
                } else {
                    Err(self.missing_root())
                }
            },
            SuitesStep::ProbeRuntest => {
                if is_success(reply) {
                    Ok(SuitesNext::Ask(SuitesStep::List))
                } else {
                    let dir = text::cat2(self.root.as_str(), "/runtest");
                    Err(
                        KirkError::Framework(
                            text::cat3("'", dir.as_str(), "' doesn't exist inside SUT"),
                        ),
                    )
                }
            },
            SuitesStep::List => match reply {
                None => Err(framework("Can't communicate with SUT")),
                Some(result) => {
                    if result.returncode != 0 {
                        Err(
                            KirkError::Framework(
                                text::cat2("command failed with: ", result.stdout.as_str()),
                            ),
                        )
                    } else {
                        Ok(SuitesNext::Done(keep_full(text::split_on(result.stdout.as_str(), '\n'))))
                    }
                },
            },
        }
    }

    fn missing_root(&self) -> (e: KirkError)
        ensures
            e@ == no_root(self@),
    {
        KirkError::Framework(text::cat2("LTP folder doesn't exist: ", self.root.as_str()))
    }

    /// Check a command before it is looked for; gives the command that looks
    /// for the folder of the test binaries.
    pub fn probe_command(&self, command: &str) -> (r: Result<String, KirkError>)
        ensures
            if parse::runtest_words(command@).len() == 0 {
                r matches Err(e) && e@ == ErrorView::Framework("command is empty"@)
            } else {
                r matches Ok(probe) && probe@ == "test -d "@ + self@.tc_folder
            },
    {
        if parse::split_cmd_args(command).len() == 0 {
            return Err(framework("command is empty"));
        }
        Ok(text::cat2("test -d ", self.tc_folder.as_str()))
    }

    /// Whether the target has to be asked for its `PATH`.
    pub fn asks_path(&self) -> (r: bool)
        ensures
            r == !self@.env.dom().contains("PATH"@),
    {
        !self.env.contains_key("PATH")
    }

    /// Test for a command, given whether the target has the folder of the test
    /// binaries and its reply to the question for its `PATH`.
    pub fn find_command(&self, command: &str, in_folder: bool, reported: &Option<CmdResult>) -> (r:
        Result<Test, KirkError>)
        ensures
            ({
                let words = parse::runtest_words(command@);
                if words.len() == 0 {
                    r matches Err(e) && e@ == ErrorView::Framework("command is empty"@)
                } else if !in_folder {
                    r matches Ok(t) && t@ == (TestView {
                        args: words.skip(1),
                        ..data::bare_test(words[0], words[0])
                    })
                } else {
                    match path_env(self@, *reported) {
                        Err(x) => r matches Err(e) && e@ == x,
                        Ok(env) => r matches Ok(t) && t@ == (TestView {
                            args: words.skip(1),
                            cwd: Some(self@.tc_folder),
                            env,
                            ..data::bare_test(words[0], words[0])
                        }),
                    }
                }
            }),
    {
        let mut words = parse::split_cmd_args(command);
        let ghost all = parse::runtest_words(command@);
        if words.len() == 0 {
            return Err(framework("command is empty"));
        }
        proof {
            parse::words_have_characters(command@, 0);
            assert(text::texts(words@)[0] == words@[0]@);
            assert(all[0].len() > 0);
        }
        let args = words.split_off(1);
        assert(text::texts(args@) =~= all.skip(1));
        let name = words[0].as_str();
        let test = match Test::new(name, name) {
            Ok(test) => test.with_args(args),
            Err(e) => {
                return Err(e);
            },
        };
        if !in_folder {
            return Ok(test);
        }
        match self.read_path(reported) {
            Ok(env) => Ok(test.with_env(env).with_cwd(self.tc_folder.as_str())),
            Err(e) => Err(e),
        }
    }

    /// Check the name of a suite before it is looked for.
    pub fn find_suite(&self, name: &str) -> (r: Result<SuiteStep, KirkError>)
        ensures
            if name@.len() == 0 {
                r matches Err(e) && e@ == ErrorView::Framework("name is empty"@)
            } else if !parse::is_confined(name@) {
                r matches Err(e) && e@ == parse::suite_name_error(name@)
            } else {
                r == Ok::<SuiteStep, KirkError>(SuiteStep::ProbeRoot)
            },
    {
        if name.is_empty() {
            return Err(framework("name is empty"));
        }
        match parse::validate_suite_name(name) {
            Ok(_) => Ok(SuiteStep::ProbeRoot),
            Err(e) => Err(e),
        }
    }

    /// Command to run in a step of the search for a suite, or path to fetch.
    pub fn suite_command(&self, name: &str, step: SuiteStep) -> (r: String)
        ensures
            r@ == suite_request(self@, name@, step),
    {
        let root = self.root.as_str();
        let suite = text::cat3(root, "/runtest/", name);
        let metadata = text::cat2(root, "/metadata/ltp.json");
        match step {
            SuiteStep::ProbeRoot => text::cat2("test -d ", root),
            SuiteStep::ProbeSuite => text::cat2("test -f ", suite.as_str()),
            SuiteStep::FetchSuite => suite,
            SuiteStep::ProbeMetadata => text::cat2("test -f ", metadata.as_str()),
            SuiteStep::FetchMetadata => metadata,
            SuiteStep::AskPath => text::owned("echo -n $PATH"),
            SuiteStep::Build => String::new(),
        }
    }

    /// Step that follows `step` in the search for a suite, given whether its
    /// command succeeded and the number of bytes that it fetched.
    pub fn suite_next(&self, name: &str, step: SuiteStep, found: bool, size: usize) -> (r: Result<
        SuiteStep,
        KirkError,
    >)
        ensures
            match suite_after(self@, name@, step, found, size) {
                Ok(next) => r == Ok::<SuiteStep, KirkError>(next),
                Err(x) => r matches Err(e) && e@ == x,
            },
    {
        let before_build = if self.asks_path() {
            SuiteStep::AskPath
        } else {
            SuiteStep::Build
        };
        match step {
            SuiteStep::ProbeRoot => {
                if found {
                    Ok(SuiteStep::ProbeSuite)
                } else {
                    Err(self.missing_root())
                }
            },
            SuiteStep::ProbeSuite => {
                if found {
                    Ok(SuiteStep::FetchSuite)
                } else {
                    Err(KirkError::Framework(text::cat3("'", name, "' suite doesn't exist")))
                }
            },
            SuiteStep::FetchSuite => Ok(SuiteStep::ProbeMetadata),
            SuiteStep::ProbeMetadata => {
                if found {
                    Ok(SuiteStep::FetchMetadata)
                } else {
                    Ok(before_build)
                }
            },
            SuiteStep::FetchMetadata => {
                if size > MAX_METADATA_BYTES {
                    Err(framework("ltp.json exceeds 8388608 byte cap"))
                } else {
                    Ok(before_build)
                }
            },
            SuiteStep::AskPath => Ok(SuiteStep::Build),
            SuiteStep::Build => Ok(SuiteStep::Build),
        }
    }

    /// Results of a test, from its output and return code.
    pub fn read_result(&self, test: Test, stdout: &str, retcode: i32, exec_time: u64) -> (r: Result<
        TestResults,
        KirkError,
    >)
        ensures
            r matches Ok(v) && v@ == result_of(test@, stdout@, retcode, exec_time),
    {
        let cut = parse::truncate_stdout(stdout);
        let stdout = parse::strip_ansi(cut.as_str());
        let mut counts = match parse::parse_summary(stdout.as_str()) {
            Some(counts) => counts,
            None => parse::count_markers(stdout.as_str()),
        };
        if counts.passed == 0 && counts.failed == 0 && counts.broken == 0 && counts.skipped == 0
            && counts.warnings == 0 {
            if retcode == 0 {
                counts.passed = 1;
            } else if retcode == 4 {
                counts.warnings = 1;
            } else if retcode == 32 {
                counts.skipped = 1;
            } else if retcode != -1 {
                counts.failed = 1;
            }
        }
        if retcode == -1 {
            counts.broken = 1;
        }
        let result = TestResults::new(test).with_failed(counts.failed).with_passed(
            counts.passed,
        ).with_broken(counts.broken).with_skipped(counts.skipped).with_warnings(
            counts.warnings,
        ).with_exec_time(exec_time).with_status(parse::retcode_status(retcode)).with_retcode(
            retcode,
        ).with_stdout(stdout.as_str());
        Ok(result)
    }
}

/// Keep the lines that are not empty.
fn keep_full(lines: Vec<String>) -> (r: Vec<String>)
    ensures
        text::texts(r@) == full_lines(text::texts(lines@)),
{
    broadcast use text::texts_push;

    let ghost all = text::texts(lines@);
    let ghost full = |l: Seq<char>| l.len() > 0;
    let mut r: Vec<String> = Vec::new();
    let mut i: usize = 0;
    proof {
        reveal(Seq::filter);
        assert(text::texts(r@) =~= all.take(0).filter(full));
    }
    while i < lines.len()
        invariant
            i <= lines@.len(),
            all == text::texts(lines@),
            full == |l: Seq<char>| l.len() > 0,
            text::texts(r@) == all.take(i as int).filter(full),
        decreases lines@.len() - i,
    {
        proof {
            reveal(Seq::filter);
            assert(all.take(i + 1).drop_last() =~= all.take(i as int));
            assert(all.take(i + 1).last() == lines@[i as int]@);
        }
        if !lines[i].as_str().is_empty() {
            r.push(lines[i].clone());
        }
        i = i + 1;
    }
    assert(all.take(all.len() as int) =~= all);
    r
}

/// Counters in the summary of a test are its results for every return code:
/// only a return code of -1 adds that the test is broken. A test whose
/// summary counts nothing is counted by its return code.
pub proof fn summary_counts_for_every_return_code(
    test: TestView,
    output: Seq<char>,
    retcode: i32,
    exec_time: u64,
)
    ensures
        ({
            let r = result_of(test, output, retcode, exec_time);
            let seen = parse::stripped(parse::cut(output, MAX_STDOUT_BYTES as nat));
            parse::summary_counts(seen) matches Some(c) ==> (c.passed != 0 || c.failed != 0
                || c.broken != 0 || c.skipped != 0 || c.warnings != 0) ==> {
                &&& r.passed == c.passed
                &&& r.failed == c.failed
                &&& r.skipped == c.skipped
                &&& r.warnings == c.warnings
                &&& retcode != -1 ==> r.broken == c.broken
                &&& retcode == -1 ==> r.broken == 1
            }
        }),
{
}

/// A summary that a test writes is what its results are: whatever stands
/// around it and whatever the return code, the numbers under the labels are
/// the counters.
pub proof fn written_summary_is_the_result(
    test: TestView,
    before: Seq<char>,
    c: Counts,
    gaps: Seq<Seq<char>>,
    after: Seq<char>,
    retcode: i32,
    exec_time: u64,
)
    requires
        gaps.len() == 5,
        forall|i: int| 0 <= i < 5 ==> text::all_space(#[trigger] gaps[i]),
        c.passed != 0 || c.failed != 0 || c.broken != 0 || c.skipped != 0 || c.warnings != 0,
        ({
            let output = before + parse::summary_text(c, gaps) + after;
            &&& !output.contains('\x1b')
            &&& text::byte_len(output) <= MAX_STDOUT_BYTES
            &&& forall|i: int|
                0 <= i < before.len() ==> !#[trigger] text::occurs_at(
                    output,
                    "Summary:\npassed"@,
                    i,
                )
        }),
    ensures
        ({
            let output = before + parse::summary_text(c, gaps) + after;
            let r = result_of(test, output, retcode, exec_time);
            &&& r.passed == c.passed
            &&& r.failed == c.failed
            &&& r.skipped == c.skipped
            &&& r.warnings == c.warnings
            &&& r.broken == if retcode == -1 {
                1
            } else {
                c.broken
            }
            &&& r.stdout == output
        }),
{
    let output = before + parse::summary_text(c, gaps) + after;
    parse::written_summary_is_read(before, c, gaps, after);
    parse::plain_is_kept(output);
    assert(parse::cut(output, MAX_STDOUT_BYTES as nat) == output);
}

/// Without a summary every marker counts, for every return code; a return
/// code of -1 adds that the test is broken.
pub proof fn markers_count_without_a_summary(
    test: TestView,
    output: Seq<char>,
    retcode: i32,
    exec_time: u64,
)
    requires
        !output.contains('\x1b'),
        text::byte_len(output) <= MAX_STDOUT_BYTES,
        !text::contains_text(output, "Summary:\npassed"@),
        ({
            ||| text::contains_text(output, "TPASS"@)
            ||| text::contains_text(output, "TFAIL"@)
            ||| text::contains_text(output, "TBROK"@)
            ||| text::contains_text(output, "TSKIP"@)
            ||| text::contains_text(output, "TWARN"@)
        }),
    ensures
        ({
            let r = result_of(test, output, retcode, exec_time);
            &&& r.passed == parse::capped(parse::places_of(output, "TPASS"@, 0).len())
            &&& r.failed == parse::capped(parse::places_of(output, "TFAIL"@, 0).len())
            &&& r.skipped == parse::capped(parse::places_of(output, "TSKIP"@, 0).len())
            &&& r.warnings == parse::capped(parse::places_of(output, "TWARN"@, 0).len())
            &&& retcode != -1 ==> r.broken == parse::capped(
                parse::places_of(output, "TBROK"@, 0).len(),
            )
            &&& retcode == -1 ==> r.broken == 1
        }),
{
    parse::no_heading_no_summary(output);
    parse::markers_are_counted(output);
    parse::plain_is_kept(output);
    assert(parse::cut(output, MAX_STDOUT_BYTES as nat) == output);
    reveal_strlit("TPASS");
    reveal_strlit("TFAIL");
    reveal_strlit("TBROK");
    reveal_strlit("TSKIP");
    reveal_strlit("TWARN");
    place_is_there(output, "TPASS"@);
    place_is_there(output, "TFAIL"@);
    place_is_there(output, "TBROK"@);
    place_is_there(output, "TSKIP"@);
    place_is_there(output, "TWARN"@);
}

proof fn place_is_there(s: Seq<char>, marker: Seq<char>)
    requires
        marker.len() > 0,
        parse::places_of(s, marker, 0).finite(),
    ensures
        text::contains_text(s, marker) ==> parse::places_of(s, marker, 0).len() > 0,
{
    if text::contains_text(s, marker) {
        let at = choose|at: int| text::occurs_at(s, marker, at);
        assert(parse::places_of(s, marker, 0).contains(at));
        if parse::places_of(s, marker, 0).len() == 0 {
            assert(parse::places_of(s, marker, 0) =~= Set::empty());
        }
    }
}

/// A test that counts nothing, by markers or by its summary, is counted once,
/// under what its return code says.
pub proof fn return_code_counts_alone(
    test: TestView,
    output: Seq<char>,
    retcode: i32,
    exec_time: u64,
)
    requires
        ({
            let seen = parse::stripped(parse::cut(output, MAX_STDOUT_BYTES as nat));
            ||| parse::summary_counts(seen) == Some(parse::no_counts())
            ||| parse::summary_counts(seen) is None && parse::marked_counts(seen)
                == parse::no_counts()
        }),
    ensures
        ({
            let r = result_of(test, output, retcode, exec_time);
            let code = |n: bool| if n {
                1u32
            } else {
                0u32
            };
            &&& r.passed == code(retcode == 0)
            &&& r.warnings == code(retcode == 4)
            &&& r.skipped == code(retcode == 32)
            &&& r.broken == code(retcode == -1)
            &&& r.failed == code(
                retcode != 0 && retcode != 4 && retcode != 32 && retcode != -1,
            )
        }),
{
}

/// A result is that of its own test: it carries the test, the return code,
/// the time and the status that belongs to the return code.
pub proof fn results_carry_what_ran(
    test: TestView,
    output: Seq<char>,
    retcode: i32,
    exec_time: u64,
)
    ensures
        ({
            let r = result_of(test, output, retcode, exec_time);
            &&& r.test == test
            &&& r.retcode == retcode
            &&& r.exec_time == exec_time
            &&& r.status == ResultStatus::PASS <==> retcode == 0
            &&& r.status == ResultStatus::BROK <==> retcode == 2 || retcode == -1
            &&& r.status == ResultStatus::WARN <==> retcode == 4
            &&& r.status == ResultStatus::CONF <==> retcode == 32
            &&& r.status == ResultStatus::FAIL <==> retcode != 0 && retcode != 2 && retcode != -1
                && retcode != 4 && retcode != 32
            &&& !output.contains('\x1b') && text::byte_len(output) <= MAX_STDOUT_BYTES ==> r.stdout
                == output
        }),
{
    if !output.contains('\x1b') {
        parse::plain_is_kept(output);
    }
}

/// A line whose first character that is no white space is a hash sign defines
/// no test and is no error, and neither is a line of white space alone.
pub proof fn comments_define_no_test(
    f: LtpView,
    indent: Seq<char>,
    comment: Seq<char>,
    env: Map<Seq<char>, Seq<char>>,
    metadata: DictView,
    runtimes: Seq<Runtime>,
)
    requires
        text::all_space(indent),
    ensures
        line_test(f, indent + seq!['#'] + comment, env, metadata, runtimes) == Ok::<
            Option<TestView>,
            ErrorView,
        >(None),
        line_test(f, indent, env, metadata, runtimes) == Ok::<Option<TestView>, ErrorView>(None),
{
    let none = Seq::<char>::empty();
    text::trimming_leaves_the_core(indent, none, none);
    assert(indent + none + none =~= indent);
    let line = indent + seq!['#'] + comment;
    let (core, rest) = trailing_space(comment);
    let kept = seq!['#'] + core;
    assert(line =~= indent + kept + rest);
    assert(kept.last() == if core.len() > 0 {
        core.last()
    } else {
        '#'
    });
    text::trimming_leaves_the_core(indent, kept, rest);
}

proof fn trailing_space(s: Seq<char>) -> (r: (Seq<char>, Seq<char>))
    ensures
        s == r.0 + r.1,
        text::all_space(r.1),
        r.0.len() > 0 ==> !text::is_space(r.0.last()),
    decreases s.len(),
{
    if s.len() > 0 && text::is_space(s.last()) {
        let (core, rest) = trailing_space(s.drop_last());
        assert(s =~= s.drop_last().push(s.last()));
        assert((core + rest).push(s.last()) =~= core + rest.push(s.last()));
        (core, rest.push(s.last()))
    } else {
        assert(s =~= s + Seq::<char>::empty());
        (s, Seq::empty())
    }
}

/// The tests of two runs of lines are those of the first and then those of
/// the second; the first error counts.
pub proof fn lines_are_read_in_order(
    f: LtpView,
    a: Seq<Seq<char>>,
    b: Seq<Seq<char>>,
    env: Map<Seq<char>, Seq<char>>,
    metadata: DictView,
    runtimes: Seq<Runtime>,
)
    ensures
        lines_tests(f, a + b, env, metadata, runtimes) == match lines_tests(
            f,
            a,
            env,
            metadata,
            runtimes,
        ) {
            Err(e) => Err(e),
            Ok(x) => match lines_tests(f, b, env, metadata, runtimes) {
                Err(e) => Err(e),
                Ok(y) => Ok(x + y),
            },
        },
    decreases b.len(),
{
    if b.len() == 0 {
        assert(a + b =~= a);
        if let Ok(x) = lines_tests(f, a, env, metadata, runtimes) {
            assert(x + Seq::<TestView>::empty() =~= x);
        }
    } else {
        let front = b.drop_last();
        lines_are_read_in_order(f, a, front, env, metadata, runtimes);
        assert((a + b).drop_last() =~= a + front);
        assert((a + b).last() == b.last());
        if let Ok(x) = lines_tests(f, a, env, metadata, runtimes) {
            if let Ok(y) = lines_tests(f, front, env, metadata, runtimes) {
                if let Ok(Some(t)) = line_test(f, b.last(), env, metadata, runtimes) {
                    assert(x + y.push(t) =~= (x + y).push(t));
                }
            }
        }
    }
}

/// A runtest file in two parts defines the tests of the first part and then
/// those of the second; a single line defines at most its own test. The suite
/// has the name that it was asked for.
pub proof fn files_are_read_line_by_line(
    f: LtpView,
    name: Seq<char>,
    a: Seq<char>,
    b: Seq<char>,
    metadata: DictView,
    runtimes: Seq<Runtime>,
    reported: Option<CmdResult>,
)
    ensures
        ({
            let whole = runtest_suite(f, name, a + seq!['\n'] + b, metadata, runtimes, reported);
            let first = runtest_suite(f, name, a, metadata, runtimes, reported);
            let second = runtest_suite(f, name, b, metadata, runtimes, reported);
            match first {
                Err(e) => whole == Err::<SuiteView, ErrorView>(e),
                Ok(x) => match second {
                    Err(e) => whole == Err::<SuiteView, ErrorView>(e),
                    Ok(y) => whole == Ok::<SuiteView, ErrorView>(
                        SuiteView { name, tests: x.tests + y.tests },
                    ),
                },
            }
        }),
        !a.contains('\n') ==> (path_env(f, reported) matches Ok(env) ==> {
            let one = runtest_suite(f, name, a, metadata, runtimes, reported);
            match line_test(f, a, env, metadata, runtimes) {
                Err(e) => one == Err::<SuiteView, ErrorView>(e),
                Ok(None) => one == Ok::<SuiteView, ErrorView>(
                    SuiteView { name, tests: Seq::empty() },
                ),
                Ok(Some(t)) => one == Ok::<SuiteView, ErrorView>(
                    SuiteView { name, tests: seq![t] },
                ),
            }
        }),
{
    text::pieces_of_concat(a, b, '\n');
    if let Ok(env) = path_env(f, reported) {
        lines_are_read_in_order(
            f,
            text::pieces(a, '\n'),
            text::pieces(b, '\n'),
            env,
            metadata,
            runtimes,
        );
        if !a.contains('\n') {
            text::one_piece(a, '\n');
            let lines = seq![a];
            assert(lines.drop_last() =~= Seq::<Seq<char>>::empty());
            assert(lines_tests(f, lines.drop_last(), env, metadata, runtimes) == Ok::<
                Seq<TestView>,
                ErrorView,
            >(Seq::empty()));
            if let Ok(Some(t)) = line_test(f, a, env, metadata, runtimes) {
                assert(Seq::<TestView>::empty().push(t) =~= seq![t]);
            }
        }
    }
}

/// Adding or removing a comment line leaves the tests of a suite as they are,
/// wherever it stands.
pub proof fn comment_lines_change_nothing(
    f: LtpView,
    name: Seq<char>,
    a: Seq<char>,
    indent: Seq<char>,
    comment: Seq<char>,
    b: Seq<char>,
    metadata: DictView,
    runtimes: Seq<Runtime>,
    reported: Option<CmdResult>,
)
    requires
        text::all_space(indent),
        !indent.contains('\n'),
        !comment.contains('\n'),
    ensures
        ({
            let line = indent + seq!['#'] + comment;
            &&& runtest_suite(
                f,
                name,
                a + seq!['\n'] + (line + seq!['\n'] + b),
                metadata,
                runtimes,
                reported,
            ) == runtest_suite(f, name, a + seq!['\n'] + b, metadata, runtimes, reported)
            &&& runtest_suite(f, name, line + seq!['\n'] + b, metadata, runtimes, reported)
                == runtest_suite(f, name, b, metadata, runtimes, reported)
            &&& runtest_suite(f, name, a + seq!['\n'] + line, metadata, runtimes, reported)
                == runtest_suite(f, name, a, metadata, runtimes, reported)
        }),
{
    let line = indent + seq!['#'] + comment;
    assert(!line.contains('\n')) by {
        if line.contains('\n') {
            let i = choose|i: int| 0 <= i < line.len() && line[i] == '\n';
            if i < indent.len() {
                assert(indent[i] == '\n');
            } else {
                assert(comment[i - indent.len() - 1] == '\n');
            }
        }
    }
    files_are_read_line_by_line(f, name, line, b, metadata, runtimes, reported);
    files_are_read_line_by_line(f, name, a, b, metadata, runtimes, reported);
    files_are_read_line_by_line(f, name, a, line, metadata, runtimes, reported);
    files_are_read_line_by_line(
        f,
        name,
        a,
        line + seq!['\n'] + b,
        metadata,
        runtimes,
        reported,
    );
    if let Ok(env) = path_env(f, reported) {
        comments_define_no_test(f, indent, comment, env, metadata, runtimes);
        if let Ok(x) = runtest_suite(f, name, a, metadata, runtimes, reported) {
            assert(x.tests + Seq::<TestView>::empty() =~= x.tests);
        }
        if let Ok(y) = runtest_suite(f, name, b, metadata, runtimes, reported) {
            assert(Seq::<TestView>::empty() + y.tests =~= y.tests);
        }
    }
}

/// A line of plain words defines the test of its first word: the second word
/// is the command, and the others are its arguments, in order. It runs in the
/// folder of the test binaries with the environment of the tests. What is not
/// known of a test keeps it from running in parallel, and what is known
/// decides.
pub proof fn written_test_is_read(
    f: LtpView,
    words: Seq<Seq<char>>,
    env: Map<Seq<char>, Seq<char>>,
    metadata: DictView,
    runtimes: Seq<Runtime>,
)
    requires
        words.len() > 0,
        words[0][0] != '#',
        forall|i: int| 0 <= i < words.len() ==> parse::is_plain(#[trigger] words[i]),
    ensures
        ({
            let got = line_test(f, text::joined(words, " "@), env, metadata, runtimes);
            if words.len() == 1 {
                got matches Err(e) && e is Framework
            } else {
                match known_test(metadata, words[0]) {
                    None => {
                        &&& got matches Ok(Some(t))
                        &&& t.name == words[0]
                        &&& t.command == words[1]
                        &&& t.args == words.subrange(2, words.len() as int)
                        &&& t.cwd == Some(f.tc_folder)
                        &&& t.env == env
                        &&& !t.parallelizable
                    },
                    Some(params) => dict::is_zero(f.max_runtime) || dict::found(
                        params,
                        "max_runtime"@,
                    ) is None ==> {
                        &&& got matches Ok(Some(t))
                        &&& t.name == words[0]
                        &&& t.command == words[1]
                        &&& t.args == words.subrange(2, words.len() as int)
                        &&& t.cwd == Some(f.tc_folder)
                        &&& t.env == env
                        &&& t.parallelizable <==> forall|i: int|
                            0 <= i < PARALLEL_BLACKLIST@.len() ==> dict::found(
                                params,
                                (#[trigger] PARALLEL_BLACKLIST@[i])@,
                            ) is None
                    },
                }
            }
        }),
{
    let line = text::joined(words, " "@);
    parse::written_words_are_read(words);
    ends_are_words(words);
    let none = Seq::<char>::empty();
    text::trimming_leaves_the_core(none, line, none);
    assert(none + line + none =~= line);
    if words.len() > 1 {
        assert(words.skip(2) =~= words.subrange(2, words.len() as int));
    }
}

proof fn ends_are_words(words: Seq<Seq<char>>)
    requires
        words.len() > 0,
        forall|i: int| 0 <= i < words.len() ==> parse::is_plain(#[trigger] words[i]),
    ensures
        ({
            let line = text::joined(words, " "@);
            &&& line.len() > 0
            &&& line[0] == words[0][0]
            &&& !text::is_space(line[0])
            &&& !text::is_space(line.last())
        }),
    decreases words.len(),
{
    assert(parse::is_plain(words[0]));
    assert(parse::is_plain(words[words.len() - 1]));
    assert(!text::is_space(words[0][0]));
    let w = words.last();
    assert(!text::is_space(w[w.len() - 1]));
    if words.len() > 1 {
        let front = words.drop_last();
        assert forall|i: int| 0 <= i < front.len() implies parse::is_plain(#[trigger] front[i]) by {
            assert(front[i] == words[i]);
        }
        ends_are_words(front);
    }
}

/// A limit on the time of tests leaves out exactly the tests that are known to
/// take that long: texts count as the numbers that they denote, true and
/// false as one and zero, and a text that denotes none is an error.
pub proof fn runtimes_decide(limit: u64, s: Seq<char>, bits: u64, parsed: Option<u64>, b: bool)
    ensures
        is_kept(limit, None, parsed) == Ok::<bool, ErrorView>(true),
        dict::is_zero(limit) ==> is_kept(limit, Some(DictView::Text(s)), None) == Ok::<
            bool,
            ErrorView,
        >(true),
        !dict::is_zero(limit) ==> is_kept(limit, Some(DictView::Text(s)), None) == Err::<
            bool,
            ErrorView,
        >(ErrorView::Framework("metadata contains wrong max_runtime value: "@ + s)),
        is_kept(limit, Some(DictView::Text(s)), Some(bits)) == is_kept(
            limit,
            Some(DictView::Number(DictNumber::Double(bits))),
            parsed,
        ),
        is_kept(limit, Some(DictView::Number(DictNumber::Double(bits))), parsed) == Ok::<
            bool,
            ErrorView,
        >(dict::is_zero(limit) || !dict::at_least(bits, limit)),
        is_kept(limit, Some(DictView::Bool(b)), parsed) == is_kept(
            limit,
            Some(
                DictView::Number(
                    DictNumber::Unsigned(
                        if b {
                            1
                        } else {
                            0
                        },
                    ),
                ),
            ),
            parsed,
        ),
{
    vstd::arithmetic::power2::lemma2_to64();
    vstd::arithmetic::power2::lemma2_to64_rest();
    assert(dict::top_bit(1) == 0);
    assert((1 - pow2(0)) * pow2(52) == 0) by (nonlinear_arith)
        requires
            pow2(0) == 1,
    ;
    assert(dict::exact_double(1) == ONE);
}

/// The environment of the tests: the root is the one given, what the runner
/// sets under the names of the Linux Test Project is handed on, also where a
/// default stands in otherwise, and nothing else.
pub proof fn environment_is_handed_on(
    root: Seq<char>,
    vars: Map<Seq<char>, Seq<char>>,
    multiplier: Option<Seq<char>>,
    key: Seq<char>,
)
    ensures
        ({
            let env = test_env(root, vars, multiplier);
            let known = "LTP_"@.is_prefix_of(key) || "TST_"@.is_prefix_of(key) || key == "TMPDIR"@
                || exists|i: int|
                0 <= i < SUPPORTED_ENV@.len() && (#[trigger] SUPPORTED_ENV@[i])@ == key;
            &&& env.dom().contains("LTPROOT"@) && env["LTPROOT"@] == root
            &&& key != "LTPROOT"@ && known && vars.dom().contains(key) ==> env.dom().contains(key)
                && env[key] == vars[key]
            &&& !vars.dom().contains("TMPDIR"@) ==> env.dom().contains("TMPDIR"@) && env["TMPDIR"@]
                == "/tmp"@
            &&& !vars.dom().contains("LTP_COLORIZE_OUTPUT"@) ==> env.dom().contains(
                "LTP_COLORIZE_OUTPUT"@,
            ) && env["LTP_COLORIZE_OUTPUT"@] == "1"@
            &&& !vars.dom().contains("LTP_TIMEOUT_MUL"@) ==> (multiplier matches Some(m)
                ==> env.dom().contains("LTP_TIMEOUT_MUL"@) && env["LTP_TIMEOUT_MUL"@] == m)
            &&& !vars.dom().contains("LTP_TIMEOUT_MUL"@) && multiplier is None
                ==> !env.dom().contains("LTP_TIMEOUT_MUL"@)
            &&& env.dom().contains(key) ==> known || key == "LTPROOT"@
            &&& env.dom().contains(key) && !vars.dom().contains(key) ==> key == "LTPROOT"@ || key
                == "TMPDIR"@ || key == "LTP_COLORIZE_OUTPUT"@ || key == "LTP_TIMEOUT_MUL"@
        }),
{
    preset_names_differ();
    reveal_strlit("LTP_");
    reveal_strlit("LTP_COLORIZE_OUTPUT");
    reveal_strlit("LTP_TIMEOUT_MUL");
    assert("LTP_COLORIZE_OUTPUT"@.subrange(0, 4) =~= "LTP_"@);
    assert("LTP_TIMEOUT_MUL"@.subrange(0, 4) =~= "LTP_"@);
    let env = test_env(root, vars, multiplier);
    assert(env_value(root, vars, multiplier, "LTPROOT"@) == Some(root));
    assert(env.dom().contains(key) <==> env_value(root, vars, multiplier, key) is Some);
    assert(env.dom().contains("TMPDIR"@));
    assert(env.dom().contains("LTP_COLORIZE_OUTPUT"@));
    assert(env.dom().contains("LTP_TIMEOUT_MUL"@) <==> env_value(
        root,
        vars,
        multiplier,
        "LTP_TIMEOUT_MUL"@,
    ) is Some);
}

/// Tests find their binaries: the folder of the binaries is the last entry of
/// `PATH`, behind what the environment has there or else what the target
/// says; no other variable changes.
pub proof fn tests_find_their_binaries(f: LtpView, reported: Option<CmdResult>, key: Seq<char>)
    ensures
        match path_env(f, reported) {
            Ok(env) => {
                &&& env.dom().contains("PATH"@)
                &&& (":"@ + f.tc_folder).is_suffix_of(env["PATH"@])
                &&& f.env.dom().contains("PATH"@) ==> env["PATH"@] == f.env["PATH"@] + (":"@
                    + f.tc_folder)
                &&& !f.env.dom().contains("PATH"@) ==> (reported matches Some(r) && r.returncode == 0
                    && env["PATH"@] == text::trimmed(r.stdout@) + (":"@ + f.tc_folder))
                &&& key != "PATH"@ ==> env.dom().contains(key) == f.env.dom().contains(key)
                &&& key != "PATH"@ && f.env.dom().contains(key) ==> env[key] == f.env[key]
            },
            Err(_) => !f.env.dom().contains("PATH"@) && !(reported matches Some(r) && r.returncode
                == 0),
        },
{
    if let Ok(env) = path_env(f, reported) {
        let tail = ":"@ + f.tc_folder;
        let path = env["PATH"@];
        if f.env.dom().contains("PATH"@) {
            assert(path =~= f.env["PATH"@] + tail);
        } else {
            assert(path =~= text::trimmed(reported->0.stdout@) + tail);
        }
        assert(tail =~= path.subrange(path.len() - tail.len(), path.len() as int));
    }
}

/// What is probed is what is fetched: a runtest file is looked for under its
/// name below the root and then fetched from there, and so is the metadata. A
/// missing root or runtest file is an error, missing metadata is not, and the
/// target is asked for its `PATH` exactly where the environment has none.
pub proof fn probes_lead_to_what_is_fetched(f: LtpView, name: Seq<char>, found: bool, size: usize)
    ensures
        suite_request(f, name, SuiteStep::FetchSuite) == f.root + "/runtest/"@ + name,
        suite_request(f, name, SuiteStep::ProbeSuite) == "test -f "@ + suite_request(
            f,
            name,
            SuiteStep::FetchSuite,
        ),
        suite_request(f, name, SuiteStep::ProbeMetadata) == "test -f "@ + suite_request(
            f,
            name,
            SuiteStep::FetchMetadata,
        ),
        suite_request(f, name, SuiteStep::FetchMetadata) == f.root + "/metadata/ltp.json"@,
        suite_request(f, name, SuiteStep::ProbeRoot) == suites_request(f, SuitesStep::ProbeRoot),
        suite_request(f, name, SuiteStep::ProbeRoot) == "test -d "@ + f.root,
        (suite_after(f, name, SuiteStep::ProbeRoot, found, size) is Ok) == found,
        found ==> suite_after(f, name, SuiteStep::ProbeRoot, found, size)->Ok_0
            == SuiteStep::ProbeSuite,
        (suite_after(f, name, SuiteStep::ProbeSuite, found, size) is Ok) == found,
        found ==> suite_after(f, name, SuiteStep::ProbeSuite, found, size)->Ok_0
            == SuiteStep::FetchSuite,
        suite_after(f, name, SuiteStep::FetchSuite, found, size) == Ok::<SuiteStep, ErrorView>(
            SuiteStep::ProbeMetadata,
        ),
        suite_after(f, name, SuiteStep::ProbeMetadata, true, size) == Ok::<SuiteStep, ErrorView>(
            SuiteStep::FetchMetadata,
        ),
        suite_after(f, name, SuiteStep::ProbeMetadata, false, size) matches Ok(next) && (next
            == SuiteStep::Build <==> f.env.dom().contains("PATH"@)) && (next == SuiteStep::AskPath
            <==> !f.env.dom().contains("PATH"@)),
        size <= MAX_METADATA_BYTES ==> suite_after(
            f,
            name,
            SuiteStep::FetchMetadata,
            found,
            size,
        ) == suite_after(f, name, SuiteStep::ProbeMetadata, false, size),
        size > MAX_METADATA_BYTES ==> suite_after(
            f,
            name,
            SuiteStep::FetchMetadata,
            found,
            size,
        ) is Err,
        suite_after(f, name, SuiteStep::AskPath, found, size) == Ok::<SuiteStep, ErrorView>(
            SuiteStep::Build,
        ),
{
}

/// The suites of the target are the lines of its listing, in order, without
/// the empty ones.
pub proof fn listed_names_are_suites(names: Seq<Seq<char>>, name: Seq<char>)
    ensures
        name.len() > 0 ==> full_lines(names.push(name)) == full_lines(names).push(name),
        name.len() == 0 ==> full_lines(names.push(name)) == full_lines(names),
        full_lines(Seq::empty()) == Seq::<Seq<char>>::empty(),
{
    reveal(Seq::filter);
    assert(names.push(name).drop_last() =~= names);
    assert(full_lines(Seq::empty()) =~= Seq::<Seq<char>>::empty());
}

/// A text denotes what stands for it in the list; where it stands more than
/// once, the first counts, and a text that is not listed denotes nothing.
pub proof fn listed_texts_denote(runtimes: Seq<Runtime>, text: Seq<char>, i: int)
    ensures
        0 <= i < runtimes.len() && runtimes[i].text@ == text && (forall|j: int|
            0 <= j < i ==> (#[trigger] runtimes[j]).text@ != text) ==> denoted(runtimes, text)
            == runtimes[i].bits,
        (forall|j: int| 0 <= j < runtimes.len() ==> (#[trigger] runtimes[j]).text@ != text)
            ==> denoted(runtimes, text) is None,
    decreases runtimes.len(),
{
    if runtimes.len() > 0 && runtimes[0].text@ != text {
        let rest = runtimes.skip(1);
        listed_texts_denote(rest, text, i - 1);
        assert forall|j: int| 0 <= j < rest.len() implies #[trigger] rest[j] == runtimes[j + 1] by {
        }
        if 0 <= i < runtimes.len() && runtimes[i].text@ == text && (forall|j: int|
            0 <= j < i ==> (#[trigger] runtimes[j]).text@ != text) {
            assert(rest[i - 1] == runtimes[i]);
            assert(forall|j: int| 0 <= j < i - 1 ==> (#[trigger] rest[j]).text@ != text);
        }
        if forall|j: int| 0 <= j < runtimes.len() ==> (#[trigger] runtimes[j]).text@ != text {
            assert(forall|j: int| 0 <= j < rest.len() ==> (#[trigger] rest[j]).text@ != text);
        }
    }
}

/// Tests stand in the folder for binaries below the root; suites are looked for
/// and listed in the folder for runtest files below the root, which is looked
/// for first.
pub proof fn folders_stand_below_the_root(
    root: Seq<char>,
    max_runtime: u64,
    vars: Map<Seq<char>, Seq<char>>,
    multiplier: Option<Seq<char>>,
)
    ensures
        ({
            let f = framework_at(root, max_runtime, vars, multiplier);
            &&& f.root == root
            &&& f.max_runtime == max_runtime
            &&& f.tc_folder == root + "/testcases/bin"@
            &&& f.env.dom().contains("LTPROOT"@) && f.env["LTPROOT"@] == root
            &&& suites_request(f, SuitesStep::ProbeRoot) == "test -d "@ + root
            &&& suites_request(f, SuitesStep::ProbeRuntest) == suites_request(
                f,
                SuitesStep::ProbeRoot,
            ) + "/runtest"@
            &&& suites_request(f, SuitesStep::List) == "ls --format=single-column "@ + (root
                + "/runtest"@)
            &&& no_root(f) is Framework
        }),
{
    environment_is_handed_on(root, vars, multiplier, "LTPROOT"@);
    let f = framework_at(root, max_runtime, vars, multiplier);
    assert(suites_request(f, SuitesStep::List) =~= "ls --format=single-column "@ + (root
        + "/runtest"@));
}

} // verus!
