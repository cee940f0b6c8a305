use kirk::cli::args::{
    name_of, parse_dict_config, parse_finjection, parse_finterval, parse_iterate,
    parse_time_config, Args, MAX_COM_INSTANCES, RC_ERROR, RC_INTERRUPT, RC_OK, RC_USAGE,
};
use kirk::cli::startup::{
    builtin_plugins, builtin_template, check_patterns, exit_code, exit_status, get_skip_tests,
    judge_pattern, lookup_template, resolve_restore, run_options, select_ui, session_config, setup_channels,
    skip_file_error, SessionEnd, SetupFacts, UiKind,
};
use kirk::cli::validate::{plugin_help, validate, HostFacts, PluginInfo, Validation};
use kirk::com::{ComChannel, Plugin};
use kirk::errors::KirkError;
use kirk::qemu::config::HostPaths;
use kirk::session::{run_plan, RunStep, HOUR};
use kirk::textmap::TextMap;

#[test]
fn time_suffixes() {
    assert_eq!(parse_time_config("5m"), Ok(300));
    assert_eq!(parse_time_config("2h"), Ok(7200));
    assert_eq!(parse_time_config("1d"), Ok(86_400));
    assert_eq!(parse_time_config("30s"), Ok(30));
    assert_eq!(parse_time_config("60"), Ok(60));
    assert_eq!(parse_time_config("0"), Ok(0));
}

#[test]
fn time_rejects_garbage() {
    for bad in ["", "abc", "1x", "m", "1.5h", "-5m", "99999999999999999999h"] {
        assert!(parse_time_config(bad).is_err(), "{bad} must fail");
    }
}

#[test]
fn time_is_digits_and_a_unit() {
    for bad in ["+5m", "5 m", "+60", "+0", "5mm", "s", "6_0", "\u{665}m"] {
        assert!(parse_time_config(bad).is_err(), "{bad} must fail");
    }
    assert_eq!(parse_time_config(" 5m "), Ok(300));
    assert_eq!(parse_time_config("007h"), Ok(25_200));
    assert_eq!(parse_time_config("18446744073709551615"), Ok(u64::MAX));
    assert!(parse_time_config("18446744073709551615m").is_err());
}

#[test]
fn iterate_clamps_to_one() {
    assert_eq!(parse_iterate(""), Ok(1));
    assert_eq!(parse_iterate("0"), Ok(1));
    assert_eq!(parse_iterate("-3"), Ok(1));
    assert_eq!(parse_iterate("4"), Ok(4));
    assert!(parse_iterate("abc").is_err());
}

#[test]
fn finjection_clamps() {
    assert_eq!(parse_finjection(""), Ok(0));
    assert_eq!(parse_finjection("200"), Ok(100));
    assert_eq!(parse_finjection("-5"), Ok(0));
    assert_eq!(parse_finjection("42"), Ok(42));
    assert!(parse_finjection("abc").is_err());
}

#[test]
fn finterval_clamps() {
    assert_eq!(parse_finterval(""), Ok(1));
    assert_eq!(parse_finterval("-5"), Ok(1));
    for val in ["1", "20", "100", "2000"] {
        assert_eq!(parse_finterval(val), Ok(val.parse().unwrap()));
    }
    assert!(parse_finterval("abc").is_err());
}

fn map(pairs: &[(&str, &str)]) -> TextMap {
    let mut map = TextMap::new();
    for (key, value) in pairs {
        map.insert(key, value);
    }
    map
}

#[test]
fn dict_parsers() {
    assert_eq!(parse_dict_config("help"), Ok(map(&[("help", "")])));
    assert!(parse_dict_config("").is_err());
    assert!(parse_dict_config("noequalssign:k").is_err());
    assert!(parse_dict_config("name:=value").is_err());
    assert!(parse_dict_config("name:key=").is_err());
    let cfg = parse_dict_config("shell:id=myshell").unwrap();
    assert_eq!(cfg.get("name"), Some("shell"));
    assert_eq!(cfg.get("id"), Some("myshell"));
    let cfg = parse_dict_config("default").unwrap();
    assert_eq!(cfg.get("name"), Some("default"));
}

#[test]
fn written_config_is_read_back() {
    let cfg = parse_dict_config("qemu:image=/a.img:options=-x=1:ram=2G").unwrap();
    assert_eq!(
        cfg,
        map(&[("name", "qemu"), ("image", "/a.img"), ("options", "-x=1"), ("ram", "2G")])
    );
    assert_eq!(name_of(&cfg), "qemu");
    let cfg = parse_dict_config("shell:id=a:id=b").unwrap();
    assert_eq!(cfg.get("id"), Some("b"));
}

#[test]
fn args_defaults_match_upstream() {
    let args = Args {
        run_command: Some(String::from("ls")),
        ..Args::default()
    };
    assert_eq!(args.suite_timeout, 3600);
    assert_eq!(args.exec_timeout, 3600);
    assert_eq!(args.runtime, 0);
    assert_eq!(args.suite_iterate, 1);
    assert_eq!(args.workers, 1);
    assert_eq!(args.fault_injection, 0);
    assert_eq!(args.fault_interval, 1);
    assert_eq!(args.tmp_dir, "/tmp");
    assert_eq!(args.sut.get("name"), Some("default"));
    assert!(!args.verbose);
    assert!(!args.no_colors);
}

#[test]
fn ui_selection() {
    assert_eq!(select_ui(4, false), UiKind::Parallel);
    assert_eq!(select_ui(4, true), UiKind::Parallel);
    assert_eq!(select_ui(1, true), UiKind::Verbose);
    assert_eq!(select_ui(1, false), UiKind::Simple);
    assert_eq!(select_ui(0, false), UiKind::Simple);
}

#[test]
fn builtin_names() {
    let (coms, suts) = builtin_plugins(None);
    assert_eq!(
        coms.iter().map(|p| p.name.as_str()).collect::<Vec<_>>(),
        ["shell", "ssh", "qemu", "ltx"]
    );
    assert_eq!(
        suts.iter().map(|p| p.name.as_str()).collect::<Vec<_>>(),
        ["default"]
    );
}

#[test]
fn skip_tests_combines_file_and_flag() {
    let file = "test01\n# comment\ntest02\n\n";
    assert_eq!(get_skip_tests(Some("test03"), Some(file)), "test01|test02|test03");
    assert_eq!(get_skip_tests(None, None), "");
}

#[test]
fn skip_tests_trims_whitespace() {
    let file = "  test01  \n   # indented comment\n\ttest02\t\n";
    assert_eq!(get_skip_tests(None, Some(file)), "test01|test02");
}

#[test]
fn skip_tests_missing_file_fails() {
    assert!(matches!(skip_file_error(), KirkError::Session(_)));
}

#[test]
fn restore_missing_dir_fails() {
    assert!(resolve_restore(Some("/nonexistent-restore-dir"), None).is_err());
    assert_eq!(resolve_restore(None, None).unwrap(), None);
    assert_eq!(resolve_restore(Some(""), None).unwrap(), None);
}

#[test]
fn restore_symlink_resolves() {
    let resolved = resolve_restore(Some("/tmp/link"), Some("/tmp/real"))
        .unwrap()
        .unwrap();
    assert!(resolved.ends_with("real"));
}

fn facts() -> SetupFacts {
    SetupFacts {
        host: HostPaths {
            tmpdir_is_dir: true,
            image_is_file: true,
            kernel_is_file: true,
            initrd_is_file: true,
            virtfs_is_dir: true,
        },
        infile_exists: true,
        outfile_exists: true,
    }
}

#[test]
fn channels_default_to_shell() {
    let instances = setup_channels(&Vec::new(), "/tmp", &Vec::new(), None)
        .ok()
        .unwrap();
    assert_eq!(instances.len(), 1);
    assert_eq!(instances[0].name(), "shell");
}

#[test]
fn channels_clone_by_id() {
    let cfg = map(&[("name", "shell"), ("id", "myshell")]);
    let instances = setup_channels(&vec![cfg], "/tmp", &vec![facts()], None)
        .ok()
        .unwrap();
    assert_eq!(instances[0].name(), "myshell");
}

#[test]
fn channels_get_the_folder_of_the_run() {
    let qemu = map(&[("name", "qemu"), ("image", "/a.img"), ("serial", "virtio")]);
    let ltx = map(&[("name", "ltx"), ("infile", "/in"), ("outfile", "/out")]);
    let shell = map(&[("name", "shell"), ("id", "other")]);
    let configs = vec![qemu, ltx, shell];
    let all = vec![facts(), facts(), facts()];
    let instances = setup_channels(&configs, "/tmp/run", &all, None).ok().unwrap();
    let names: Vec<&str> = instances.iter().map(|c| c.name()).collect();
    assert_eq!(names, ["qemu", "ltx", "other"]);
    assert!(instances.iter().all(|c| !c.active()));
    let mut missing = facts();
    missing.host.image_is_file = false;
    let refused = setup_channels(&configs, "/tmp/run", &vec![missing, facts(), facts()], None);
    assert!(refused.is_err());
}

#[test]
fn all_builtin_templates_resolve() {
    for name in ["shell", "ssh", "qemu", "ltx"] {
        let template = lookup_template(name, name, &Vec::new(), None).ok().unwrap();
        assert_eq!(template.name(), name);
    }
    assert!(builtin_template("nonexistent", "x", None).is_none());
}

#[test]
fn channels_missing_template_errors() {
    let cfg = map(&[("name", "nonexistent")]);
    assert!(setup_channels(&vec![cfg], "/tmp", &vec![facts()], None).is_err());
}

#[test]
fn configured_channel_is_a_template() {
    let first = map(&[("name", "shell"), ("id", "base")]);
    let second = map(&[("name", "base"), ("id", "copy")]);
    let instances = setup_channels(&vec![first, second], "/tmp", &vec![facts(), facts()], None)
        .ok()
        .unwrap();
    let names: Vec<&str> = instances.iter().map(|c| c.name()).collect();
    assert_eq!(names, ["base", "copy"]);
}

#[test]
fn dry_run_command_needs_no_ltp_root() {
    let (coms, suts) = builtin_plugins(None);
    let args = Args {
        run_command: Some(String::from("echo hello")),
        exec_timeout: 60,
        no_colors: true,
        dry_run: true,
        ..Args::default()
    };
    assert!(validate(&args, &coms, &suts, host()).is_ok());
    let options = run_options(&args, "", None);
    assert!(options.dry_run);
    let plan = run_plan(&options, "/tmp/run", false);
    assert!(!plan.iter().any(|step| matches!(step, RunStep::Command(_) | RunStep::Schedule(_))));
    assert_eq!(exit_code(SessionEnd::Success), RC_OK);
}

#[test]
fn sessions_end_with_their_codes() {
    assert_eq!(exit_code(SessionEnd::Failure), RC_ERROR);
    assert_eq!(exit_code(SessionEnd::Interrupted), RC_INTERRUPT);
}

#[test]
fn program_ends_with_its_codes() {
    let refused = || Err(KirkError::Session("no".to_owned()));
    assert_eq!(exit_status(&refused(), None), RC_USAGE);
    assert_eq!(exit_status(&Ok(Validation::ComHelp), None), RC_OK);
    assert_eq!(exit_status(&Ok(Validation::SutHelp), None), RC_OK);
    let proceed = Ok(Validation::Proceed);
    for code in [RC_OK, RC_ERROR, RC_INTERRUPT] {
        assert_eq!(exit_status(&proceed, Some(&Ok(code))), code);
    }
    let setup = Err(KirkError::Session("no".to_owned()));
    assert_eq!(exit_status(&proceed, Some(&setup)), RC_USAGE);
    assert_eq!(exit_status(&proceed, None), RC_ERROR);
    assert_eq!((RC_OK, RC_ERROR, RC_USAGE, RC_INTERRUPT), (0, 1, 2, 130));
}

#[test]
fn patterns_are_checked() {
    assert!(check_patterns("", None).is_ok());
    assert!(check_patterns("a|b", Some("^x.*")).is_ok());
    assert!(check_patterns("a|(", None).is_err());
    assert!(check_patterns("", Some("[")).is_err());
    assert!(judge_pattern("x", true).is_ok());
    assert!(matches!(judge_pattern("[", false), Err(KirkError::Session(_))));
}

#[test]
fn arguments_become_options() {
    let args = Args {
        run_suite: Some(vec![String::from("math")]),
        run_pattern: Some(String::from("abs")),
        json_report: Some(String::from("/r.json")),
        suite_iterate: 3,
        randomize: true,
        runtime: 7,
        fault_injection: 10,
        fault_interval: 2,
        suite_timeout: 100,
        exec_timeout: 50,
        workers: 4,
        force_parallel: true,
        ..Args::default()
    };
    let options = run_options(&args, "skipme", Some(String::from("/old")));
    assert_eq!(options.suites, ["math"]);
    assert_eq!(options.pattern.as_deref(), Some("abs"));
    assert_eq!(options.skip_tests.as_deref(), Some("skipme"));
    assert_eq!(options.report_path.as_deref(), Some("/r.json"));
    assert_eq!(options.restore_path.as_deref(), Some("/old"));
    assert_eq!(options.suite_iterate, 3);
    assert_eq!(f64::from_bits(options.runtime), 7.0);
    assert_eq!((options.fault_prob, options.fault_interval), (10, 2));
    let config = session_config(&args);
    assert_eq!(f64::from_bits(config.suite_timeout), 100.0);
    assert_eq!(f64::from_bits(config.exec_timeout), 50.0);
    assert_eq!(config.workers, 4);
    assert!(config.force_parallel);
    assert_eq!(f64::from_bits(HOUR), 3600.0);

    let defaults = Args { run_suite: Some(vec![String::from("math")]), ..Args::default() };
    let config = session_config(&defaults);
    assert_eq!((config.exec_timeout, config.suite_timeout), (HOUR, HOUR));
    let plan = run_plan(&run_options(&defaults, "", None), "/tmp", true);
    assert!(matches!(plan.last(), Some(RunStep::Schedule(None))));
}

fn plugins() -> (Vec<PluginInfo>, Vec<PluginInfo>) {
    (
        vec![PluginInfo {
            name: String::from("shell"),
            config_help: TextMap::new(),
        }],
        vec![PluginInfo {
            name: String::from("default"),
            config_help: map(&[("com", "help")]),
        }],
    )
}

fn host() -> HostFacts {
    HostFacts {
        plugins_is_dir: true,
        report_exists: false,
        skip_is_file: true,
        tmp_is_dir: true,
    }
}

#[test]
fn no_run_option_fails() {
    let (coms, suts) = plugins();
    let args = Args {
        sut: parse_dict_config("default").unwrap(),
        ..Args::default()
    };
    assert!(validate(&args, &coms, &suts, host()).is_err());
}

#[test]
fn pattern_without_suite_fails() {
    let (coms, suts) = plugins();
    let args = Args {
        run_pattern: Some(String::from("test.*")),
        ..Args::default()
    };
    assert!(validate(&args, &coms, &suts, host()).is_err());
}

#[test]
fn invalid_plugins_dir_fails() {
    let (coms, suts) = plugins();
    let args = Args {
        plugins: Some(String::from("/nonexistent")),
        sut: parse_dict_config("help").unwrap(),
        ..Args::default()
    };
    let missing = HostFacts { plugins_is_dir: false, ..host() };
    assert!(validate(&args, &coms, &suts, missing).is_err());
}

#[test]
fn invalid_tmp_dir_fails() {
    let (coms, suts) = plugins();
    let args = Args {
        tmp_dir: String::from("/nonexistent_dir"),
        run_command: Some(String::from("ls")),
        ..Args::default()
    };
    let missing = HostFacts { tmp_is_dir: false, ..host() };
    assert!(validate(&args, &coms, &suts, missing).is_err());
}

#[test]
fn invalid_skip_file_fails() {
    let (coms, suts) = plugins();
    let args = Args {
        skip_file: Some(String::from("/nonexistent")),
        run_suite: Some(vec![String::from("suite01")]),
        ..Args::default()
    };
    let missing = HostFacts { skip_is_file: false, ..host() };
    assert!(validate(&args, &coms, &suts, missing).is_err());
}

#[test]
fn existing_report_fails() {
    let (coms, suts) = plugins();
    let args = Args {
        tmp_dir: String::from("/tmp/kirk-cli-report-check"),
        json_report: Some(String::from("/tmp/kirk-cli-report-check/report.json")),
        run_suite: Some(vec![String::from("suite01")]),
        ..Args::default()
    };
    let taken = HostFacts { report_exists: true, ..host() };
    assert!(validate(&args, &coms, &suts, taken).is_err());
    assert!(validate(&args, &coms, &suts, host()).is_ok());
}

#[test]
fn com_help_short_circuits() {
    let (coms, suts) = plugins();
    let args = Args {
        com: vec![parse_dict_config("help").unwrap()],
        ..Args::default()
    };
    assert!(matches!(
        validate(&args, &coms, &suts, host()),
        Ok(Validation::ComHelp)
    ));
}

#[test]
fn sut_help_short_circuits() {
    let (coms, suts) = plugins();
    let args = Args {
        sut: parse_dict_config("help").unwrap(),
        ..Args::default()
    };
    assert!(matches!(
        validate(&args, &coms, &suts, host()),
        Ok(Validation::SutHelp)
    ));
}

#[test]
fn unknown_com_fails() {
    let (coms, suts) = plugins();
    let args = Args {
        com: vec![parse_dict_config("nonexistent").unwrap()],
        run_command: Some(String::from("ls")),
        ..Args::default()
    };
    assert!(validate(&args, &coms, &suts, host()).is_err());
}

#[test]
fn com_limit_fails() {
    let (coms, suts) = plugins();
    let mut args = Args {
        run_command: Some(String::from("ls")),
        ..Args::default()
    };
    for _ in 0..MAX_COM_INSTANCES {
        args.com.push(parse_dict_config("shell").unwrap());
    }
    assert!(validate(&args, &coms, &suts, host()).is_err());
}

#[test]
fn valid_command_args_proceed() {
    let (coms, suts) = plugins();
    let args = Args {
        run_command: Some(String::from("ls")),
        ..Args::default()
    };
    assert!(matches!(
        validate(&args, &coms, &suts, host()),
        Ok(Validation::Proceed)
    ));
}

#[test]
fn plugin_help_renders() {
    let (coms, suts) = plugins();
    let text = plugin_help("--com", &coms);
    assert!(text.contains("--com option supports the following syntax"));
    assert!(text.contains("shell"));
    let text = plugin_help("--sut", &suts);
    assert!(text.contains("com: help"));
}
