use kirk::com::CmdResult;
use kirk::data::{Suite, Test};
use kirk::errors::KirkError;
use kirk::results::{SuiteResults, TestResults};
use kirk::session::{
    apply_iterate, check_suite_names, close_plan, command_report, command_timeout, dry_run_list,
    executed_text, fault_next, filter_tests, keep_tests, randomize, read_executed, read_suites,
    reorder, report_targets, restore_tests, round_suites, run_outcome, run_plan, short_error,
    Executed, FaultStep, FaultWarning, Follow, Rounds, RunOptions, RunStep, Session, SessionConfig,
};

fn suite01() -> Suite {
    Suite::new(
        "suite01",
        vec![
            Test::new("test01", "echo").unwrap(),
            Test::new("test02", "echo").unwrap(),
        ],
    )
}

fn suite02() -> Suite {
    Suite::new(
        "suite02",
        vec![
            Test::new("test01", "echo").unwrap(),
            Test::new("test02", "echo")
                .unwrap()
                .with_parallelizable(true),
        ],
    )
}

#[test]
fn filter_tests_keeps_matching() {
    let mut suites = vec![suite01(), suite02()];
    filter_tests(&mut suites, Some("test01"), false).unwrap();
    assert!(suites.iter().all(|s| s.tests().len() == 1));
    assert!(suites.iter().all(|s| s.tests()[0].name() == "test01"));
}

#[test]
fn filter_tests_skips_matching() {
    let mut suites = vec![suite01(), suite02()];
    filter_tests(&mut suites, Some("test02"), true).unwrap();
    assert!(suites.iter().all(|s| s.tests().len() == 1));
}

#[test]
fn filter_tests_rejects_bad_regex() {
    let mut suites = vec![suite01()];
    assert!(filter_tests(&mut suites, Some("(unclosed"), false).is_err());
}

#[test]
fn filters_are_complementary() {
    let names = |s: &Suite| s.tests().iter().map(|t| t.name().to_owned()).collect::<Vec<_>>();
    for pattern in ["test01", "^t.*2$", ".*", "nothing", "0[12]"] {
        let mut kept = vec![suite01()];
        let mut dropped = vec![suite01()];
        filter_tests(&mut kept, Some(pattern), false).unwrap();
        filter_tests(&mut dropped, Some(pattern), true).unwrap();
        let regex = regex::Regex::new(pattern).unwrap();
        for test in suite01().tests() {
            let name = test.name().to_owned();
            let kept_names = kept.first().map(names).unwrap_or_default();
            let dropped_names = dropped.first().map(names).unwrap_or_default();
            assert_eq!(kept_names.contains(&name), regex.is_match(&name), "{pattern}");
            assert_eq!(dropped_names.contains(&name), !regex.is_match(&name), "{pattern}");
        }
    }
    let left = keep_tests(&suite01(), &vec![true, false], true);
    assert_eq!(names(&left), ["test02"]);
}

#[test]
fn apply_iterate_renames() {
    let once = apply_iterate(vec![suite01()], 1);
    assert_eq!(once.len(), 1);
    assert_eq!(once[0].name(), "suite01");
    let thrice = apply_iterate(vec![suite01()], 3);
    assert_eq!(thrice.len(), 3);
    assert_eq!(thrice[0].name(), "suite01[0]");
    assert_eq!(thrice[2].name(), "suite01[2]");
    assert!(thrice.iter().all(|s| s.tests().len() == 2));
    assert_eq!(round_suites(&vec![suite01()], 4)[0].name(), "suite01[4]");
}

fn find_suite(name: &str) -> Result<Suite, KirkError> {
    match name {
        "suite01" => Ok(suite01()),
        "suite02" => Ok(suite02()),
        _ => Err(KirkError::Framework(format!("can't find suite {name}"))),
    }
}

/// Run what `options` select on a target where every test passes; an error
/// comes up after `fail_after` results.
fn run(
    options: &RunOptions,
    done: &Vec<Executed>,
    fail_after: usize,
) -> (Vec<SuiteResults>, Result<(), KirkError>, Vec<String>) {
    let mut session = Session::new("/tmp/run", SessionConfig::default());
    let mut suites: Vec<Suite> = Vec::new();
    let mut log = Vec::new();
    let mut outcome = Ok(());
    for step in run_plan(options, session.tmpdir(), true) {
        match step {
            RunStep::Fire { event, message } => log.push(format!("{event} {message}")),
            RunStep::StartSut => log.push("start".to_owned()),
            RunStep::Command(command) => log.push(format!("command {command}")),
            RunStep::Fault { prob, interval } => log.push(format!("fault {prob} {interval}")),
            RunStep::Select => {
                if let Err(e) = check_suite_names(&options.suites) {
                    outcome = Err(e);
                    break;
                }
                let found: Result<Vec<Suite>, KirkError> =
                    options.suites.iter().map(|name| find_suite(name)).collect();
                let read = read_suites(
                    found.unwrap(),
                    done,
                    options.pattern.as_deref(),
                    options.skip_tests.as_deref(),
                    false,
                );
                match read {
                    Ok(chosen) => suites = apply_iterate(chosen, options.suite_iterate),
                    Err(e) => {
                        outcome = Err(e);
                        break;
                    }
                }
            }
            RunStep::Randomize => suites = suites.iter().map(randomize).collect(),
            RunStep::DryRun => log.push(format!("dry {}", dry_run_list(&suites))),
            RunStep::Export(_) | RunStep::Stop => unreachable!("no step of a start"),
            RunStep::Schedule(_) => {
                let mut count = 0;
                for suite in &suites {
                    let mut rows = Vec::new();
                    for test in suite.tests() {
                        if count < fail_after {
                            rows.push(TestResults::new(test.clone()).with_passed(1));
                        }
                        count += 1;
                    }
                    if !rows.is_empty() {
                        session.collect(vec![SuiteResults::new(suite.clone()).with_tests(rows)]);
                    }
                }
                if count > fail_after {
                    outcome = Err(KirkError::Communication(
                        "SUT connection dropped mid-suite".to_owned(),
                    ));
                }
            }
        }
    }
    (session.take_results(), outcome, log)
}

fn rows(results: &[SuiteResults]) -> usize {
    results.iter().map(|r| r.tests_results().len()).sum()
}

fn both() -> Vec<String> {
    vec![String::from("suite01"), String::from("suite02")]
}

#[test]
fn run_executes_suites() {
    let options = RunOptions { suites: both(), ..Default::default() };
    let (results, outcome, _) = run(&options, &Vec::new(), 99);
    outcome.unwrap();
    assert_eq!(rows(&results), 4);
    assert_eq!(report_targets(results.len(), "/tmp/run", None), ["/tmp/run/results.json"]);
    let executed = executed_text(&results);
    assert!(executed.contains("suite01::test01\n"));
    assert!(executed.contains("suite02::test02\n"));
}

#[test]
fn run_with_pattern() {
    let options = RunOptions {
        suites: both(),
        pattern: Some(String::from("test01|test02")),
        ..Default::default()
    };
    let (results, outcome, _) = run(&options, &Vec::new(), 99);
    outcome.unwrap();
    assert_eq!(rows(&results), 4);
}

#[test]
fn run_with_report() {
    let options = RunOptions {
        suites: both(),
        report_path: Some(String::from("/tmp/report.json")),
        ..Default::default()
    };
    let (results, outcome, _) = run(&options, &Vec::new(), 99);
    outcome.unwrap();
    assert_eq!(rows(&results), 4);
    let targets = report_targets(results.len(), "/tmp/run", options.report_path.as_deref());
    assert!(targets.contains(&String::from("/tmp/report.json")));
    assert!(targets.contains(&String::from("/tmp/run/results.json")));
}

#[test]
fn run_report_abort_persists_partial_results() {
    let options = RunOptions { suites: both(), ..Default::default() };
    let (results, outcome, _) = run(&options, &Vec::new(), 2);
    let err = outcome.unwrap_err();
    assert!(err.to_string().contains("dropped"));
    assert_eq!(rows(&results), 2);
}

#[test]
fn run_dry_run_writes_nothing() {
    let options = RunOptions {
        suites: both(),
        report_path: Some(String::from("/tmp/report.json")),
        dry_run: true,
        ..Default::default()
    };
    let (results, outcome, log) = run(&options, &Vec::new(), 99);
    outcome.unwrap();
    assert!(results.is_empty());
    assert!(report_targets(results.len(), "/tmp/run", options.report_path.as_deref()).is_empty());
    assert!(log.iter().any(|line| line.starts_with("dry ") && line.contains("test02")));
}

#[test]
fn run_stop_during_sleep() {
    let mut session = Session::new("/tmp/run", SessionConfig::default());
    assert!(session.stop());
    assert!(!session.stop());
    assert!(session.stopping());
    let error = Err(KirkError::Sut("x".to_owned()));
    assert_eq!(session.error_message(&error), None);
    session.stop_done();
    assert!(!session.stopping());
    assert!(session.error_message(&error).is_some());
}

#[test]
fn run_single_command() {
    let options = RunOptions {
        command: Some(String::from("test")),
        ..Default::default()
    };
    let (results, outcome, log) = run(&options, &Vec::new(), 99);
    outcome.unwrap();
    assert!(results.is_empty());
    assert!(log.contains(&String::from("command test")));
    let row = CmdResult {
        command: "test".to_owned(),
        returncode: 3,
        stdout: "out".to_owned(),
        exec_time: 0,
    };
    assert_eq!(command_report("test", "test", &Some(row)).unwrap(), "test\nout\n3");
    assert!(command_report("test", "test", &None).is_err());
    assert!(matches!(command_timeout("test"), KirkError::Session(_)));
}

#[test]
fn run_skip_tests() {
    let options = RunOptions {
        suites: both(),
        skip_tests: Some(String::from("test02")),
        ..Default::default()
    };
    let (results, outcome, _) = run(&options, &Vec::new(), 99);
    outcome.unwrap();
    assert_eq!(rows(&results), 2);
}

#[test]
fn run_suite_iterate() {
    for (iterate, expect) in [(0, 4), (1, 4), (3, 12)] {
        let options = RunOptions {
            suites: both(),
            suite_iterate: iterate,
            ..Default::default()
        };
        let (results, outcome, _) = run(&options, &Vec::new(), 99);
        outcome.unwrap();
        assert_eq!(rows(&results), expect);
    }
}

#[test]
fn run_randomize_keeps_count() {
    let options = RunOptions {
        suites: vec![String::from("suite01"); 10],
        randomize: true,
        ..Default::default()
    };
    let (results, outcome, _) = run(&options, &Vec::new(), 99);
    outcome.unwrap();
    assert_eq!(rows(&results), 20);
}

#[test]
fn randomize_permutes() {
    let tests: Vec<Test> = (0..30)
        .map(|i| Test::new(&format!("test{i:02}"), "echo").unwrap())
        .collect();
    let suite = Suite::new("many", tests.clone());
    let mixed = randomize(&suite);
    assert_ne!(mixed.tests(), suite.tests());
    let mut sorted = mixed.tests().to_vec();
    sorted.sort_by(|a, b| a.name().cmp(b.name()));
    assert_eq!(sorted, tests);
    assert_eq!(reorder(&suite01(), &vec![1, 0]).tests()[0].name(), "test02");
}

#[test]
fn restore_skips_executed_tests() {
    let options = RunOptions {
        suites: vec![String::from("suite01")],
        ..Default::default()
    };
    let (results, _, _) = run(&options, &Vec::new(), 99);
    let done = read_executed(&executed_text(&results));
    let (_, outcome, _) = run(&options, &done, 99);
    assert!(outcome.unwrap_err().to_string().contains("no tests selected"));

    let mut suites = vec![suite01(), suite02()];
    restore_tests(&mut suites, &vec![done[0].clone()]);
    let left: Vec<usize> = suites.iter().map(|s| s.tests().len()).collect();
    assert_eq!(left, [1, 2]);
}

#[test]
fn executed_lines_are_read_back() {
    let done = read_executed("suite01::test01\nno separator\na::b::c\n\n");
    let pairs: Vec<(&str, &str)> =
        done.iter().map(|e| (e.suite.as_str(), e.test.as_str())).collect();
    assert_eq!(pairs, [("suite01", "test01"), ("a", "b::c")]);
}

#[test]
fn fault_injection_is_set_up_step_by_step() {
    let ask = |step: FaultStep, reply: bool| fault_next(step, Some(reply), 10);
    assert!(matches!(ask(FaultStep::AskRoot, true), FaultStep::AskEnabled));
    assert!(matches!(ask(FaultStep::AskEnabled, true), FaultStep::Setup));
    assert!(matches!(ask(FaultStep::Setup, true), FaultStep::Done(None)));
    assert!(matches!(
        ask(FaultStep::AskRoot, false),
        FaultStep::Done(Some(FaultWarning::NotRoot))
    ));
    assert!(matches!(
        ask(FaultStep::AskEnabled, false),
        FaultStep::Done(Some(FaultWarning::NotEnabled))
    ));
    for warning in [FaultWarning::NotRoot, FaultWarning::Refused, FaultWarning::NotEnabled] {
        assert!(!warning.text().is_empty());
    }
}

#[test]
fn errors_are_told_in_short() {
    let e = KirkError::Session("no tests selected".to_owned());
    assert_eq!(short_error(&e), "session error: no tests selected");
    let e = KirkError::KernelPanic("secret output".to_owned());
    assert_eq!(short_error(&e), "session failed");
}

#[test]
fn repeated_names_are_refused() {
    assert!(check_suite_names(&both()).is_ok());
}

fn told(step: &RunStep) -> String {
    match step {
        RunStep::Fire { event, message } => format!("{event} {message}"),
        RunStep::Fault { prob, interval } => format!("fault {prob} {interval}"),
        RunStep::Export(target) => format!("export {target}"),
        RunStep::Stop => "stop".to_owned(),
        _ => unreachable!("no step of an end"),
    }
}

#[test]
fn failed_run_saves_its_results() {
    let options = RunOptions {
        fault_prob: 10,
        report_path: Some(String::from("/tmp/report.json")),
        ..Default::default()
    };
    let steps: Vec<String> =
        close_plan(&options, "/tmp/run", Some("lost"), 2).iter().map(told).collect();
    assert_eq!(
        steps,
        [
            "session_error lost",
            "fault 0 1",
            "export /tmp/run/results.json",
            "export /tmp/report.json",
            "stop",
            "session_completed 2",
        ]
    );
    let steps: Vec<String> =
        close_plan(&RunOptions::default(), "/tmp/run", None, 0).iter().map(told).collect();
    assert_eq!(steps, ["stop", "session_completed 0"]);
}

/// Follow a plan; `fails` says which steps fail. Gives the steps that were
/// done, the messages of failed reports and the outcome.
fn follow(
    plan: &[RunStep],
    fails: impl Fn(&RunStep) -> bool,
) -> (Vec<String>, Vec<String>, Result<(), KirkError>) {
    let mut follow = Follow::new();
    let (mut done, mut messages) = (Vec::new(), Vec::new());
    for step in plan {
        if !follow.due(step) {
            continue;
        }
        done.push(format!("{step:?}"));
        let outcome = if fails(step) {
            Err(KirkError::Session(format!("{step:?}")))
        } else {
            Ok(())
        };
        messages.extend(follow.done(step, outcome));
    }
    (done, messages, follow.outcome())
}

#[test]
fn failed_report_leaves_the_end_of_a_run() {
    let options = RunOptions {
        report_path: Some(String::from("/r.json")),
        ..Default::default()
    };
    let plan = close_plan(&options, "/tmp", None, 1);
    let (done, messages, outcome) = follow(&plan, |step| matches!(step, RunStep::Export(_)));
    assert_eq!(done.len(), 3);
    assert_eq!(done[0], "Export(\"/tmp/results.json\")");
    assert_eq!(done[1], "Stop");
    assert!(done[2].contains("session_completed"));
    let error = outcome.unwrap_err();
    assert_eq!(messages, [short_error(&error)]);
    assert!(error.to_string().contains("results.json"));

    let (done, messages, outcome) = follow(&plan, |_| false);
    assert_eq!(done.len(), plan.len());
    assert!(messages.is_empty() && outcome.is_ok());
}

#[test]
fn failed_step_ends_a_run() {
    let options = RunOptions {
        command: Some(String::from("ls")),
        suites: both(),
        ..Default::default()
    };
    let plan = run_plan(&options, "/tmp", true);
    let (done, messages, outcome) = follow(&plan, |step| matches!(step, RunStep::Command(_)));
    assert_eq!(done.last().unwrap(), "Command(\"ls\")");
    assert_eq!(done.len(), 3);
    assert!(messages.is_empty());
    assert!(outcome.unwrap_err().to_string().contains("Command"));
}

#[test]
fn report_errors_count_first() {
    let error = |text: &str| KirkError::Session(text.to_owned());
    let shown = |r: Result<(), KirkError>| r.map_err(|e| e.to_string());
    assert_eq!(shown(run_outcome(Ok(()), None)), Ok(()));
    assert_eq!(shown(run_outcome(Err(error("run")), None)), Err(error("run").to_string()));
    for run in [Ok(()), Err(error("run"))] {
        assert_eq!(shown(run_outcome(run, Some(error("save")))), Err(error("save").to_string()));
    }
}

#[test]
fn results_stand_in_the_folder() {
    assert_eq!(report_targets(1, "/tmp/run", None), ["/tmp/run/results.json"]);
    assert_eq!(report_targets(1, "/tmp/run/", None), ["/tmp/run/results.json"]);
    assert_eq!(report_targets(1, "/", Some("r")), ["/results.json", "r"]);
}

#[test]
fn runtime_repeats_the_suites() {
    let schedule = |runtime: f64| {
        let options = RunOptions {
            suites: both(),
            runtime: runtime.to_bits(),
            ..Default::default()
        };
        match run_plan(&options, "/tmp", true).pop() {
            Some(RunStep::Schedule(time)) => time.map(f64::from_bits),
            _ => panic!("suites are scheduled last"),
        }
    };
    assert_eq!(schedule(2.5), Some(2.5));
    for once in [0.0, -0.0, -1.0, f64::NAN, f64::INFINITY] {
        assert_eq!(schedule(once), None, "{once}");
    }

    let mut rounds = Rounds::new(vec![suite01(), suite02()]);
    let names = |rounds: &Rounds| {
        let round = rounds.round(false)?;
        Some(round.iter().map(|s| s.name().to_owned()).collect::<Vec<_>>())
    };
    assert_eq!(names(&rounds).unwrap(), ["suite01[0]", "suite02[0]"]);
    rounds.ended(false, false);
    assert_eq!(names(&rounds).unwrap(), ["suite01[1]", "suite02[1]"]);
    assert!(rounds.round(true).is_none());
    rounds.ended(true, false);
    assert!(rounds.round(false).is_none());
}

#[test]
fn selection_keeps_what_qualifies() {
    let tests = |names: &[&str]| {
        names.iter().map(|name| Test::new(name, "echo").unwrap()).collect::<Vec<Test>>()
    };
    let suites = vec![
        Suite::new("net", tests(&["ping01", "ping02", "ftp01", "ping03"])),
        Suite::new("fs", tests(&["ping02", "open01"])),
    ];
    let done = read_executed("net::ping01\nfs::open01\n");
    let chosen = read_suites(suites, &done, Some("^ping"), Some("03$"), true).unwrap();
    let names: Vec<(&str, Vec<&str>)> = chosen
        .iter()
        .map(|suite| (suite.name(), suite.tests().iter().map(|test| test.name()).collect()))
        .collect();
    assert_eq!(names, [("net", vec!["ping02"]), ("fs", vec!["ping02"])]);
    assert!(chosen.iter().all(|suite| suite.tests().iter().all(|test| test.parallelizable())));
}

#[test]
fn nothing_selected_is_an_error() {
    let err = read_suites(vec![suite01()], &Vec::new(), None, Some("test"), false).unwrap_err();
    assert_eq!(err.to_string(), "session error: no tests selected");
}
