use kirk::com::CmdResult;
use kirk::data::{Suite, Test};
use kirk::dict::{Dict, DictNumber, DictValue};
use kirk::errors::KirkError;
use kirk::ltp::framework::{
    is_success, runtime_texts, LtpFramework, Runtime, SuiteStep, SuitesNext, SuitesStep,
    PARALLEL_BLACKLIST, SUPPORTED_ENV,
};
use kirk::ltp::parse::{
    count_markers, parse_summary, retcode_status, split_cmd_args, strip_ansi, truncate_stdout,
    validate_suite_name, Counts, MAX_METADATA_BYTES, MAX_STDOUT_BYTES,
};
use kirk::results::{ResultStatus, TestResults};
use kirk::textmap::TextMap;
use std::collections::BTreeMap;

#[test]
fn split_keeps_quoted_groups() {
    assert_eq!(
        split_cmd_args(r#"cmd -c "cmd2 -g arg1 -t arg2""#),
        vec!["cmd", "-c", "\"cmd2 -g arg1 -t arg2\""]
    );
    assert_eq!(
        split_cmd_args("test.sh ciao bepi"),
        vec!["test.sh", "ciao", "bepi"]
    );
    assert_eq!(split_cmd_args("   "), [] as [String; 0]);
}

#[test]
fn split_is_that_of_the_pattern() {
    let pattern = regex::Regex::new(r#"(?:"[^"]*"|'[^']*'|\S+)"#).unwrap();
    for line in [
        "",
        "a",
        " a\tb\u{3000}c ",
        "\"a b\" c",
        "\"\"",
        "\"\" \"x\"",
        "a\"b c\"d",
        "\"open ended",
        "x \"one\ntwo\" y",
        "\"a\"\"b\"",
        "\"a\"b",
        "'a b' 'c\"d' e'f g'",
        "''x '",
        "é \"ü ö\"",
    ] {
        let expected: Vec<&str> = pattern.find_iter(line).map(|m| m.as_str()).collect();
        assert_eq!(split_cmd_args(line), expected, "{line:?}");
    }
}

#[test]
fn ansi_stripped() {
    assert_eq!(strip_ansi("\u{1b}[32mTPASS\u{1b}[0m: ok"), "TPASS: ok");
    assert_eq!(strip_ansi("plain"), "plain");
}

#[test]
fn ansi_is_that_of_the_pattern() {
    let pattern = regex::Regex::new("\u{1b}\\[[0-9;]+[a-zA-Z]").unwrap();
    for text in [
        "",
        "\u{1b}",
        "\u{1b}[",
        "\u{1b}[m",
        "\u{1b}[1m",
        "\u{1b}[1;31mred\u{1b}[0m",
        "\u{1b}[1;31",
        "\u{1b}\u{1b}[1mx",
        "\u{1b}[1\u{1b}[2Kx",
        "\u{1b}[;;Z",
        "a\u{1b}[12?x",
    ] {
        assert_eq!(strip_ansi(text), pattern.replace_all(text, ""), "{text:?}");
    }
}

#[test]
fn summary_parsed() {
    let stdout =
        "some output\nSummary:\npassed   3\nfailed   1\nbroken   0\nskipped  2\nwarnings 1\n";
    assert_eq!(
        parse_summary(stdout),
        Some(Counts {
            passed: 3,
            failed: 1,
            broken: 0,
            skipped: 2,
            warnings: 1,
        })
    );
    assert_eq!(parse_summary("no summary here"), None);
}

#[test]
fn summary_is_that_of_the_pattern() {
    let pattern = regex::Regex::new(
        "Summary:\npassed\\s*(?P<passed>\\d+)\nfailed\\s*(?P<failed>\\d+)\nbroken\\s*(?P<broken>\\d+)\nskipped\\s*(?P<skipped>\\d+)\nwarnings\\s*(?P<warnings>\\d+)\n",
    )
    .unwrap();
    let block = |n: &str| {
        format!("passed {n}\nfailed\t1\nbroken  2\nskipped 3\nwarnings 4\n")
    };
    for text in [
        block("5"),
        format!("Summary:\n{}", block("5")),
        format!("Summary:\nnoise passed x\n{}", block("6")),
        format!("Summary:\n{}{}", block("7"), block("8")),
        format!("Summary: {}\nSummary:\n{}", block("7"), block("9")),
        format!("Summary:\nSummary:\n{}", block("5")),
        format!("Summary:\n{}", block("")),
        format!("Summary:\n{}", block("\n\n 12")),
        format!("Summary:\n{}", block("\u{661}2")),
        format!("Summary:\n{}", block("5").trim_end()),
        "Summary:\npassed\n\n1\nfailed 1\nbroken 1\nskipped 1\nwarnings 1\n".to_owned(),
    ] {
        let expected = pattern.captures(&text).and_then(|caps| {
            let n = |i: usize| caps[i].parse::<u32>().ok();
            Some(Counts {
                passed: n(1)?,
                failed: n(2)?,
                broken: n(3)?,
                skipped: n(4)?,
                warnings: n(5)?,
            })
        });
        assert_eq!(parse_summary(&text), expected, "{text:?}");
    }
}

#[test]
fn markers_counted() {
    let counts = count_markers("test 1 TPASS: ok\ntest 2 TPASS: ok\ntest 3 TFAIL: bad\n");
    assert_eq!(counts.passed, 2);
    assert_eq!(counts.failed, 1);
    assert_eq!(counts.broken, 0);
}

#[test]
fn every_marker_is_counted() {
    let counts = count_markers("TBROK TBROK TSKIP TWARN TPASSTPASS");
    assert_eq!(
        counts,
        Counts { passed: 2, failed: 0, broken: 2, skipped: 1, warnings: 1 }
    );
}

#[test]
fn retcode_mapping_matches_upstream() {
    assert_eq!(retcode_status(0), ResultStatus::PASS);
    assert_eq!(retcode_status(2), ResultStatus::BROK);
    assert_eq!(retcode_status(-1), ResultStatus::BROK);
    assert_eq!(retcode_status(4), ResultStatus::WARN);
    assert_eq!(retcode_status(32), ResultStatus::CONF);
    assert_eq!(retcode_status(1), ResultStatus::FAIL);
    assert_eq!(retcode_status(99), ResultStatus::FAIL);
}

#[test]
fn traversal_names_rejected() {
    for name in ["../evil", "a/b", "..", "a\\b", "a\0b"] {
        assert!(
            validate_suite_name(name).is_err(),
            "{name:?} must be rejected"
        );
    }
    assert!(validate_suite_name("suite0").is_ok());
}

#[test]
fn cut_stands_at_a_character() {
    assert_eq!(truncate_stdout("short"), "short");
    let long = format!("{}é", "x".repeat(MAX_STDOUT_BYTES - 1));
    assert_eq!(truncate_stdout(&long), "x".repeat(MAX_STDOUT_BYTES - 1));
}

#[test]
fn blacklist_has_eight_exact_tags() {
    assert_eq!(
        &PARALLEL_BLACKLIST,
        &[
            "needs_root",
            "needs_device",
            "mount_device",
            "mntpoint",
            "resource_file",
            "format_device",
            "save_restore",
            "max_runtime",
        ]
    );
}

fn bits(x: f64) -> u64 {
    x.to_bits()
}

fn plain_framework(root: &str, max_runtime: f64) -> LtpFramework {
    LtpFramework::with_root(root, bits(max_runtime), &TextMap::new(), Some("0.09"))
}

#[test]
fn env_map_snapshot() {
    let multiplier = format!("{}", (30.0 * 0.9) / 300.0);
    let framework =
        LtpFramework::with_root("/opt/ltp", bits(0.0), &TextMap::new(), Some(&multiplier));
    assert_eq!(framework.root(), "/opt/ltp");
    assert_eq!(framework.tc_folder(), "/opt/ltp/testcases/bin");
    assert_eq!(framework.env().get("LTPROOT"), Some("/opt/ltp"));
    assert_eq!(framework.env().get("TMPDIR"), Some("/tmp"));
    assert_eq!(framework.env().get("LTP_COLORIZE_OUTPUT"), Some("1"));
    assert_eq!(framework.env().get("LTP_TIMEOUT_MUL"), Some(multiplier.as_str()));
}

#[test]
fn root_comes_from_the_variables() {
    let mut vars = TextMap::new();
    vars.insert("LTPROOT", "/srv/ltp");
    let framework = LtpFramework::new(bits(0.0), &vars, None);
    assert_eq!(framework.root(), "/srv/ltp");
    assert_eq!(LtpFramework::new(bits(0.0), &TextMap::new(), None).root(), "/opt/ltp");
}

fn runtime_of(text: &str) -> (Dict, Option<u64>) {
    let mut params = Dict::new();
    params.insert("max_runtime", DictValue::Text(text.to_owned()));
    (params, text.parse::<f64>().ok().map(f64::to_bits))
}

#[test]
fn max_runtime_filtering() {
    let framework = plain_framework("/opt/ltp", 5.0);
    let (params, parsed) = runtime_of("10");
    assert!(!framework.is_addable(&params, parsed).unwrap());
    let (params, parsed) = runtime_of("2");
    assert!(framework.is_addable(&params, parsed).unwrap());
    assert!(framework.is_addable(&Dict::new(), None).unwrap());

    let unfiltered = plain_framework("/opt/ltp", 0.0);
    let (params, parsed) = runtime_of("999");
    assert!(unfiltered.is_addable(&params, parsed).unwrap());
}

#[test]
fn max_runtime_of_other_types() {
    let framework = plain_framework("/opt/ltp", 5.0);
    for (value, kept) in [
        (DictValue::Null, true),
        (DictValue::Bool(true), true),
        (DictValue::Number(DictNumber::Unsigned(5)), false),
        (DictValue::Number(DictNumber::Unsigned(4)), true),
        (DictValue::Number(DictNumber::Negative(-9)), true),
        (DictValue::Number(DictNumber::Double(bits(5.5))), false),
        (DictValue::List(Vec::new()), true),
        (DictValue::Dict(Dict::new()), true),
    ] {
        let mut params = Dict::new();
        params.insert("max_runtime", value);
        assert_eq!(framework.is_addable(&params, None).unwrap(), kept);
    }
    let (params, parsed) = runtime_of("soon");
    let err = framework.is_addable(&params, parsed).unwrap_err();
    assert_eq!(
        err.to_string(),
        "framework error: metadata contains wrong max_runtime value: soon"
    );
}

const TESTS_NUM: usize = 6;
const SUITES_NUM: usize = 3;

/// Files of a test root, and what a shell on it answers.
struct Files {
    root: String,
    files: BTreeMap<String, String>,
    path_answer: Option<String>,
}

impl Files {
    fn has_dir(&self, path: &str) -> bool {
        let below = format!("{path}/");
        self.files.keys().any(|name| name.starts_with(&below))
    }

    fn run(&self, command: &str) -> Option<CmdResult> {
        let answer = |stdout: String, ok: bool| {
            Some(CmdResult {
                command: command.to_owned(),
                returncode: i32::from(!ok),
                stdout,
                exec_time: 0,
            })
        };
        if let Some(path) = command.strip_prefix("test -d ") {
            return answer(String::new(), self.has_dir(path));
        }
        if let Some(path) = command.strip_prefix("test -f ") {
            return answer(String::new(), self.files.contains_key(path));
        }
        if let Some(dir) = command.strip_prefix("ls --format=single-column ") {
            let below = format!("{dir}/");
            let names: Vec<String> = self
                .files
                .keys()
                .filter_map(|name| name.strip_prefix(&below))
                .map(|name| format!("{name}\n"))
                .collect();
            return answer(names.concat(), true);
        }
        if command == "echo -n $PATH" {
            let path = self.path_answer.clone()?;
            return answer(path, true);
        }
        answer(String::new(), false)
    }
}

fn prepare_ltproot() -> Files {
    let root = "/ltp".to_owned();
    let mut files = BTreeMap::new();
    let mut known = Vec::new();
    let content: String = (0..TESTS_NUM).map(|i| format!("test0{i} echo ciao\n")).collect();
    for i in 0..SUITES_NUM {
        files.insert(format!("{root}/runtest/suite{i}"), content.clone());
    }
    let mut slow = String::new();
    for i in TESTS_NUM..TESTS_NUM * 2 {
        slow.push_str(&format!("slow_test0{i} sleep 0.05\n"));
        known.push(format!("\"slow_test0{i}\": {{\"max_runtime\": \"10\"}}"));
    }
    files.insert(format!("{root}/runtest/slow_suite"), slow);
    files.insert(format!("{root}/runtest/bad_suite"), "lonelycommand\n".to_owned());
    let metadata = format!("{{\"tests\": {{{}}}}}", known.join(", "));
    files.insert(format!("{root}/metadata/ltp.json"), metadata);
    files.insert(format!("{root}/testcases/bin/test.sh"), "#!/bin/bash\n".to_owned());
    Files { root, files, path_answer: Some(String::from("/usr/bin:/bin")) }
}

fn harness() -> (Files, LtpFramework) {
    let files = prepare_ltproot();
    let framework = plain_framework(&files.root, 0.0);
    (files, framework)
}

fn get_suites(framework: &LtpFramework, files: &Files) -> Result<Vec<String>, KirkError> {
    let mut step = SuitesStep::ProbeRoot;
    loop {
        let reply = files.run(&framework.suites_command(step));
        match framework.get_suites(step, &reply)? {
            SuitesNext::Ask(next) => step = next,
            SuitesNext::Done(names) => return Ok(names),
        }
    }
}

fn find_command(
    framework: &LtpFramework,
    files: &Files,
    command: &str,
) -> Result<Test, KirkError> {
    let in_folder = is_success(&files.run(&framework.probe_command(command)?));
    let reported = if in_folder && framework.asks_path() {
        files.run("echo -n $PATH")
    } else {
        None
    };
    framework.find_command(command, in_folder, &reported)
}

fn find_suite(framework: &LtpFramework, files: &Files, name: &str) -> Result<Suite, KirkError> {
    let mut step = framework.find_suite(name)?;
    let mut content = String::new();
    let mut reported = None;
    let mut metadata = DictValue::Null;
    loop {
        let request = framework.suite_command(name, step);
        let (found, size) = match step {
            SuiteStep::Build => break,
            SuiteStep::FetchSuite => {
                content = files.files[&request].clone();
                (true, content.len())
            }
            SuiteStep::FetchMetadata => {
                let bytes = files.files[&request].as_bytes();
                metadata = LtpFramework::read_metadata(bytes)?;
                (true, bytes.len())
            }
            SuiteStep::AskPath => {
                reported = files.run(&request);
                (true, 0)
            }
            _ => (is_success(&files.run(&request)), 0),
        };
        step = framework.suite_next(name, step, found, size)?;
    }
    let runtimes: Vec<Runtime> = runtime_texts(&metadata)
        .into_iter()
        .map(|text| Runtime { bits: text.parse::<f64>().ok().map(f64::to_bits), text })
        .collect();
    framework.build_suite(name, content.as_bytes(), &metadata, &runtimes, &reported)
}

#[test]
fn get_suites_lists_all_fixtures() {
    let (files, framework) = harness();
    let suites = get_suites(&framework, &files).expect("suites");
    for name in ["suite0", "suite1", "suite2", "slow_suite"] {
        assert!(
            suites.contains(&name.to_owned()),
            "{name} missing: {suites:?}"
        );
    }
}

#[test]
fn find_command_returns_test_definition() {
    let (files, framework) = harness();
    let test = find_command(&framework, &files, "test.sh ciao bepi").expect("command");
    assert_eq!(test.name(), "test.sh");
    assert_eq!(test.command(), "test.sh");
    assert_eq!(test.arguments(), &["ciao".to_owned(), "bepi".to_owned()]);
    assert!(!test.parallelizable());
    assert_eq!(test.cwd(), Some("/ltp/testcases/bin"));
    assert!(!test.env().is_empty());
}

#[test]
fn find_command_quote_aware_split() {
    let (files, framework) = harness();
    let test = find_command(&framework, &files, "cmd -c \"a b\"").expect("command");
    assert_eq!(test.name(), "cmd");
    assert_eq!(test.arguments(), &["-c".to_owned(), "\"a b\"".to_owned()]);
}

#[test]
fn find_suite_parses_tests_and_env() {
    let (files, framework) = harness();
    for i in 0..SUITES_NUM {
        let suite = find_suite(&framework, &files, &format!("suite{i}")).expect("suite");
        assert_eq!(suite.tests().len(), TESTS_NUM);
        for (j, test) in suite.tests().iter().enumerate() {
            assert_eq!(test.name(), format!("test0{j}"));
            assert_eq!(test.command(), "echo");
            assert_eq!(test.arguments(), &["ciao".to_owned()]);
            assert_eq!(test.cwd(), Some("/ltp/testcases/bin"));
            assert!(!test.parallelizable());
            for key in ["LTPROOT", "TMPDIR", "LTP_COLORIZE_OUTPUT"] {
                assert!(test.env().contains_key(key), "{key} missing");
            }
        }
    }

    let suite = find_suite(&framework, &files, "slow_suite").expect("slow suite");
    assert_eq!(suite.tests().len(), TESTS_NUM);
    for test in suite.tests() {
        assert_eq!(test.command(), "sleep");
        assert_eq!(test.arguments(), &["0.05".to_owned()]);
        // `max_runtime` is in `PARALLEL_BLACKLIST`, so metadata-backed
        // tests stay non-parallelizable.
        assert!(!test.parallelizable());
    }
}

#[test]
fn known_tests_without_tags_run_in_parallel() {
    let (mut files, framework) = harness();
    files.files.insert(
        "/ltp/metadata/ltp.json".to_owned(),
        r#"{"tests": {"test01": {}, "test02": {"needs_root": true}, "test03": [1]}}"#.to_owned(),
    );
    let suite = find_suite(&framework, &files, "suite0").expect("suite");
    let parallel: Vec<&str> = suite
        .tests()
        .iter()
        .filter(|t| t.parallelizable())
        .map(|t| t.name())
        .collect();
    assert_eq!(parallel, ["test01"]);
}

#[test]
fn find_suite_forwards_supported_and_prefixed_env() {
    let mut vars = TextMap::new();
    for key in SUPPORTED_ENV {
        if key != "PATH" {
            vars.insert(key, &format!("test_value_{key}"));
        }
    }
    vars.insert("TST_USE_NETNS", "yes");
    vars.insert("LTP_RSH", "ssh -nq");
    let files = prepare_ltproot();
    let framework = LtpFramework::with_root(&files.root, bits(0.0), &vars, None);
    let suite = find_suite(&framework, &files, "suite0").expect("suite");
    for test in suite.tests() {
        for i in 0..vars.len() {
            let key = vars.key_at(i);
            assert_eq!(test.env().get(key), Some(vars.value_at(i)), "{key} not forwarded");
        }
    }
}

#[test]
fn find_suite_max_runtime_filters_slow_tests() {
    let files = prepare_ltproot();
    let framework = plain_framework(&files.root, 5.0);
    let suite = find_suite(&framework, &files, "slow_suite").expect("suite");
    assert!(suite.tests().is_empty());
}

fn read_result(test: Test, stdout: &str, retcode: i32, exec_time: f64) -> TestResults {
    let (_, framework) = harness();
    framework
        .read_result(test, stdout, retcode, bits(exec_time))
        .expect("result")
}

fn echo_test() -> Test {
    Test::new("test", "echo").expect("test")
}

#[test]
fn read_result_passed() {
    let test = echo_test().with_args(vec!["ciao".to_owned()]);
    let result = read_result(test.clone(), "ciao\n", 0, 0.1);
    assert_eq!(result.passed(), 1);
    assert_eq!(result.failed(), 0);
    assert_eq!(result.broken(), 0);
    assert_eq!(result.skipped(), 0);
    assert_eq!(result.warnings(), 0);
    assert!((f64::from_bits(result.exec_time()) - 0.1).abs() < f64::EPSILON);
    assert_eq!(result.test(), &test);
    assert_eq!(result.return_code(), 0);
    assert_eq!(result.stdout(), "ciao\n");
    assert_eq!(result.status(), ResultStatus::PASS);
}

#[test]
fn read_result_failure() {
    let result = read_result(echo_test(), "", 1, 0.1);
    assert_eq!(result.passed(), 0);
    assert_eq!(result.failed(), 1);
    assert_eq!(result.status(), ResultStatus::FAIL);
    assert_eq!(result.return_code(), 1);
    assert_eq!(result.stdout(), "");
}

#[test]
fn read_result_broken() {
    let result = read_result(echo_test(), "", -1, 0.1);
    assert_eq!(result.broken(), 1);
    assert_eq!(result.failed(), 0);
    assert_eq!(result.status(), ResultStatus::BROK);
    assert_eq!(result.return_code(), -1);
}

#[test]
fn read_result_skipped_and_warnings() {
    let result = read_result(echo_test(), "mydata", 32, 0.1);
    assert_eq!(result.skipped(), 1);
    assert_eq!(result.status(), ResultStatus::CONF);
    assert_eq!(result.stdout(), "mydata");

    let result = read_result(echo_test(), "", 4, 0.1);
    assert_eq!(result.warnings(), 1);
    assert_eq!(result.status(), ResultStatus::WARN);
}

#[test]
fn read_result_with_summary() {
    let stdout =
        "some output\nSummary:\npassed   3\nfailed   1\nbroken   0\nskipped  2\nwarnings 1\n";
    let result = read_result(echo_test(), stdout, 0, 0.5);
    assert_eq!(result.passed(), 3);
    assert_eq!(result.failed(), 1);
    assert_eq!(result.broken(), 0);
    assert_eq!(result.skipped(), 2);
    assert_eq!(result.warnings(), 1);
}

#[test]
fn read_result_tpass_markers() {
    let stdout = "test 1 TPASS: ok\ntest 2 TPASS: ok\ntest 3 TFAIL: bad\n";
    let result = read_result(echo_test(), stdout, 1, 0.1);
    assert_eq!(result.passed(), 2);
    assert_eq!(result.failed(), 1);
}

#[test]
fn read_result_strips_ansi() {
    let result = read_result(echo_test(), "\u{1b}[32mTPASS\u{1b}[0m: ok\n", 0, 0.1);
    assert_eq!(result.stdout(), "TPASS: ok\n");
    assert_eq!(result.passed(), 1);
}

#[test]
fn read_result_truncates_huge_stdout() {
    let huge = "x".repeat(MAX_STDOUT_BYTES + 1024);
    let result = read_result(echo_test(), &huge, 0, 0.1);
    assert!(result.stdout().len() <= MAX_STDOUT_BYTES);
}

#[test]
fn invalid_inputs_error() {
    let (files, framework) = harness();
    assert!(find_command(&framework, &files, "").is_err());
    assert!(find_command(&framework, &files, "   ").is_err());
    assert!(find_suite(&framework, &files, "").is_err());
    assert!(find_suite(&framework, &files, "nonexistent_suite_xyz").is_err());
    assert!(find_suite(&framework, &files, "bad_suite").is_err());
    for traversal in ["../evil", "a/b", ".."] {
        assert!(
            find_suite(&framework, &files, traversal).is_err(),
            "{traversal} must be rejected"
        );
    }

    let missing = plain_framework("/nonexistent-ltp-root-xyz", 0.0);
    assert!(get_suites(&missing, &files).is_err());
    assert!(find_suite(&missing, &files, "suite0").is_err());
}

#[test]
fn large_metadata_is_refused() {
    let (_, framework) = harness();
    let next = |size: usize| framework.suite_next("s", SuiteStep::FetchMetadata, true, size);
    assert!(next(MAX_METADATA_BYTES).is_ok());
    assert!(next(MAX_METADATA_BYTES + 1).is_err());
}

#[test]
fn metadata_is_read_as_json() {
    let text = r#"{"tests": {"a": {"max_runtime": "2.5", "n": [1, -2, 0.5, null, true]}, "b": 3}}"#;
    let metadata = LtpFramework::read_metadata(text.as_bytes()).unwrap();
    let number = |n| DictValue::Number(n);
    let mut params = Dict::new();
    params.insert("max_runtime", DictValue::Text("2.5".to_owned()));
    params.insert(
        "n",
        DictValue::List(vec![
            number(DictNumber::Unsigned(1)),
            number(DictNumber::Negative(-2)),
            number(DictNumber::Double(bits(0.5))),
            DictValue::Null,
            DictValue::Bool(true),
        ]),
    );
    let mut tests = Dict::new();
    tests.insert("a", DictValue::Dict(params));
    tests.insert("b", number(DictNumber::Unsigned(3)));
    let mut all = Dict::new();
    all.insert("tests", DictValue::Dict(tests));
    assert_eq!(metadata, DictValue::Dict(all));
    assert_eq!(runtime_texts(&metadata), ["2.5"]);

    let err = LtpFramework::read_metadata(b"{").unwrap_err();
    assert_eq!(
        err.to_string(),
        "framework error: invalid ltp.json: EOF while parsing an object at line 1 column 1"
    );
}

#[test]
fn wrong_runtime_in_metadata_is_an_error() {
    let files = prepare_ltproot();
    let framework = plain_framework(&files.root, 5.0);
    let metadata = LtpFramework::read_metadata(
        br#"{"tests": {"a": {"max_runtime": "soon"}, "b": {"max_runtime": 4}}}"#,
    )
    .unwrap();
    let runtimes = vec![Runtime { text: "soon".to_owned(), bits: None }];
    let path = files.run("echo -n $PATH");
    let build = |content: &[u8]| {
        framework.build_suite("s", content, &metadata, &runtimes, &path)
    };
    assert_eq!(
        build(b"a echo").unwrap_err().to_string(),
        "framework error: metadata contains wrong max_runtime value: soon"
    );
    assert_eq!(build(b"b echo \xff").unwrap().tests()[0].arguments(), ["\u{fffd}".to_owned()]);
}

#[test]
fn timeout_mul_from_env() {
    let mut vars = TextMap::new();
    vars.insert("LTP_TIMEOUT_MUL", "2.5");
    let framework = LtpFramework::with_root("/opt/ltp", bits(0.0), &vars, Some("0.09"));
    assert_eq!(framework.env().get("LTP_TIMEOUT_MUL"), Some("2.5"));
}

#[test]
fn read_path_without_path_env() {
    let (files, mut framework) = harness();
    framework.env_mut().remove("PATH");
    let suite = find_suite(&framework, &files, "suite0").expect("suite");
    for test in suite.tests() {
        let path = test.env().get("PATH").expect("PATH present");
        assert_eq!(path, format!("/usr/bin:/bin:{}", framework.tc_folder()));
    }
}
