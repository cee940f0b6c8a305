use kirk::data::{Suite, Test};
use kirk::dict::{
    dict_item, double_at_least, double_is_zero, float_to_int, integer_to_double, Dict, DictNumber, DictValue, Double,
};
use kirk::errors::KirkError;
use kirk::results::{ResultStatus, SuiteResults, TestResults};
use kirk::textmap::TextMap;

fn may_fail_sut(fail: bool) -> Result<String, KirkError> {
    if fail {
        Err(KirkError::Sut(String::from("sut broken")))
    } else {
        Ok(String::from("ok"))
    }
}

#[test]
fn each_variant_display_is_non_empty() {
    let variants = [
        (KirkError::Plugin(String::from("p")), "plugin error: p"),
        (KirkError::Communication(String::from("c")), "communication error: c"),
        (KirkError::Sut(String::from("s")), "SUT error: s"),
        (KirkError::KernelPanic(String::from("kp")), "kernel panic: kp"),
        (KirkError::KernelTainted(String::from("kt")), "kernel tainted: kt"),
        (KirkError::KernelTimeout(String::from("kto")), "kernel timeout: kto"),
        (KirkError::Framework(String::from("f")), "framework error: f"),
        (KirkError::Exporter(String::from("e")), "exporter error: e"),
        (KirkError::Ltx(String::from("l")), "LTX error: l"),
        (KirkError::Scheduler(String::from("sched")), "scheduler error: sched"),
        (KirkError::Session(String::from("sess")), "session error: sess"),
    ];
    for (err, shown) in variants {
        assert!(!err.to_string().is_empty(), "{err:?} must be shown");
        assert_eq!(err.to_string(), shown);
    }
}

#[test]
fn catch_sut_error_specifically() {
    let err = may_fail_sut(true).unwrap_err();
    assert!(matches!(err, KirkError::Sut(_)));

    let value = may_fail_sut(false).unwrap();
    assert_eq!(value, "ok");
}

#[test]
fn question_mark_propagates_kirk_error() {
    fn inner() -> Result<String, KirkError> {
        let value = may_fail_sut(false)?;
        Ok(value)
    }

    fn failing() -> Result<String, KirkError> {
        let _ = may_fail_sut(true)?;
        Ok(String::from("unreachable"))
    }

    assert_eq!(inner().unwrap(), "ok");
    assert!(matches!(failing().unwrap_err(), KirkError::Sut(_)));
}

#[test]
fn empty_name_fails() {
    let err = Test::new("", "ls").unwrap_err();
    assert!(matches!(err, KirkError::Framework(_)));
    assert!(err.to_string().contains("Test must have a name"));
}

#[test]
fn empty_command_fails() {
    let err = Test::new("ls-test", "").unwrap_err();
    assert!(matches!(err, KirkError::Framework(_)));
    assert!(err.to_string().contains("Test must have a command"));
}

#[test]
fn full_command_joins_args() {
    let test = Test::new("ls-test", "ls")
        .unwrap()
        .with_args(vec!["-l".to_owned(), "-a".to_owned()]);
    assert_eq!(test.full_command(), "ls -l -a");
}

#[test]
fn full_command_without_args() {
    let test = Test::new("ls-test", "ls").unwrap();
    assert_eq!(test.full_command(), "ls");
}

#[test]
fn force_parallel_marks_parallelizable() {
    let mut test = Test::new("ls-test", "ls").unwrap();
    assert!(!test.parallelizable());
    test.force_parallel();
    assert!(test.parallelizable());
}

#[test]
fn suite_set_name_rejects_empty() {
    let mut suite = Suite::new("suite0", Vec::new());
    assert!(suite.set_name("").is_err());
    assert_eq!(suite.name(), "suite0");
    suite.set_name("suite1").unwrap();
    assert_eq!(suite.name(), "suite1");
}

#[test]
fn suite_holds_tests() {
    let test = Test::new("ls-test", "ls").unwrap();
    let suite = Suite::new("suite0", vec![test.clone()]);
    assert_eq!(suite.tests(), &[test]);
}

#[test]
fn test_keeps_what_it_is_given() {
    let mut env = TextMap::new();
    env.insert("A", "1");
    let test = Test::new("t", "cmd")
        .unwrap()
        .with_cwd("/tmp")
        .with_env(env)
        .with_parallelizable(true);
    assert_eq!(test.name(), "t");
    assert_eq!(test.command(), "cmd");
    assert_eq!(test.cwd(), Some("/tmp"));
    assert_eq!(test.env().get("A"), Some("1"));
    assert!(test.parallelizable());
    assert!(test.arguments().is_empty());
    assert_eq!(Test::new("t", "cmd").unwrap().cwd(), None);
}

fn test(name: &str) -> Test {
    Test::new(name, "cmd").unwrap()
}

#[test]
fn status_values() {
    assert_eq!(ResultStatus::PASS, 0);
    assert_eq!(ResultStatus::BROK, 2);
    assert_eq!(ResultStatus::WARN, 4);
    assert_eq!(ResultStatus::FAIL, 16);
    assert_eq!(ResultStatus::CONF, 32);
}

#[test]
fn test_results_defaults() {
    let results = TestResults::new(test("t0"));
    assert_eq!(results.failed(), 0);
    assert_eq!(results.passed(), 0);
    assert!((f64::from_bits(results.exec_time()) - 0.0).abs() < f64::EPSILON);
    assert_eq!(results.status(), ResultStatus::PASS);
    assert_eq!(results.return_code(), 0);
    assert_eq!(results.stdout(), "");
}

fn exec_time(results: &SuiteResults) -> f64 {
    results
        .tests_results()
        .iter()
        .map(|r| f64::from_bits(r.exec_time()))
        .sum()
}

#[test]
fn suite_sums_counters() {
    let suite = Suite::new("suite0", Vec::new());
    let results = SuiteResults::new(suite).with_tests(vec![
        TestResults::new(test("t0"))
            .with_failed(1)
            .with_passed(2)
            .with_broken(3)
            .with_skipped(4)
            .with_warnings(5)
            .with_exec_time(1.5f64.to_bits()),
        TestResults::new(test("t1"))
            .with_failed(6)
            .with_passed(7)
            .with_broken(8)
            .with_skipped(9)
            .with_warnings(10)
            .with_exec_time(2.5f64.to_bits()),
    ]);
    assert_eq!(results.failed(), 7);
    assert_eq!(results.passed(), 9);
    assert_eq!(results.broken(), 11);
    assert_eq!(results.skipped(), 13);
    assert_eq!(results.warnings(), 15);
    assert!((exec_time(&results) - 4.0).abs() < f64::EPSILON);
}

#[test]
fn empty_suite_sums_zero() {
    let results = SuiteResults::new(Suite::new("suite0", Vec::new()));
    assert_eq!(results.failed(), 0);
    assert!((exec_time(&results) - 0.0).abs() < f64::EPSILON);
}

#[test]
fn suite_results_keep_what_they_are_given() {
    let results = SuiteResults::new(Suite::new("suite0", Vec::new()))
        .with_distro("openSUSE")
        .with_distro_ver("15.3")
        .with_kernel("5.10")
        .with_cmdline("quiet")
        .with_arch("x86_64")
        .with_cpu("cpu")
        .with_swap("0")
        .with_ram("1M");
    assert_eq!(results.suite().name(), "suite0");
    assert_eq!(results.distro(), Some("openSUSE"));
    assert_eq!(results.distro_ver(), Some("15.3"));
    assert_eq!(results.kernel(), Some("5.10"));
    assert_eq!(results.cmdline(), Some("quiet"));
    assert_eq!(results.arch(), Some("x86_64"));
    assert_eq!(results.cpu(), Some("cpu"));
    assert_eq!(results.swap(), Some("0"));
    assert_eq!(results.ram(), Some("1M"));
    let results = TestResults::new(test("t"))
        .with_status(ResultStatus::FAIL)
        .with_retcode(3)
        .with_stdout("out");
    assert_eq!(results.status(), 16);
    assert_eq!(results.return_code(), 3);
    assert_eq!(results.stdout(), "out");
    assert_eq!(results.test().name(), "t");
}

fn dict_with(key: &str, value: DictValue) -> Dict {
    let mut dict = Dict::new();
    dict.insert(key, value);
    dict
}

fn whole(n: u64) -> DictValue {
    DictValue::Number(DictNumber::Unsigned(n))
}

fn float(x: f64) -> DictValue {
    DictValue::Number(DictNumber::Double(x.to_bits()))
}

#[test]
fn str_item() {
    let data = dict_with("key", DictValue::Text("value".to_owned()));
    assert_eq!(
        dict_item::<String>(&data, "key", None).unwrap(),
        Some("value".to_owned())
    );
}

#[test]
fn wrong_type_fails() {
    let data = dict_with("key", whole(10));
    let err = dict_item::<String>(&data, "key", None).unwrap_err();
    assert_eq!(err.to_string(), "dict value must be a str but it's int");
}

#[test]
fn int_coerces_to_float() {
    let data = dict_with("key", whole(10));
    let val = dict_item::<Double>(&data, "key", None).unwrap();
    assert!(val.is_some_and(|v| (f64::from_bits(v.bits) - 10.0).abs() < f64::EPSILON));
}

#[test]
fn float_coerces_to_int() {
    let data = dict_with("key", float(10.0));
    assert_eq!(dict_item::<i64>(&data, "key", None).unwrap(), Some(10));
}

#[test]
fn missing_key_default_none() {
    let data = dict_with("key2", DictValue::Text("value".to_owned()));
    assert_eq!(dict_item::<String>(&data, "key", None).unwrap(), None);
}

#[test]
fn missing_key_default_str() {
    let data = dict_with("key2", DictValue::Text("value".to_owned()));
    assert_eq!(
        dict_item(&data, "key", Some("ciao".to_owned())).unwrap(),
        Some("ciao".to_owned())
    );
}

#[test]
fn dict_types_are_named() {
    for (value, name) in [
        (DictValue::Null, "NoneType"),
        (DictValue::Number(DictNumber::Negative(-1)), "int"),
        (float(1.5), "float"),
        (DictValue::Text(String::new()), "str"),
        (DictValue::List(Vec::new()), "list"),
        (DictValue::Dict(Dict::new()), "dict"),
    ] {
        let data = dict_with("key", value);
        let err = dict_item::<bool>(&data, "key", None).unwrap_err();
        assert_eq!(
            err.to_string(),
            format!("dict value must be a bool but it's {name}")
        );
    }
    let data = dict_with("key", DictValue::Bool(true));
    assert_eq!(dict_item::<bool>(&data, "key", None).unwrap(), Some(true));
    let err = dict_item::<i64>(&data, "key", None).unwrap_err();
    assert_eq!(err.to_string(), "dict value must be a int but it's bool");
    let err = dict_item::<Double>(&data, "key", None).unwrap_err();
    assert_eq!(err.to_string(), "dict value must be a float but it's bool");
}

#[test]
fn later_dict_entry_wins() {
    let mut data = dict_with("key", whole(1));
    data.insert("key", whole(2));
    assert_eq!(dict_item::<i64>(&data, "key", None).unwrap(), Some(2));
}

#[test]
fn large_integers_are_held_to_the_range() {
    let data = dict_with("key", whole(u64::MAX));
    assert_eq!(dict_item::<i64>(&data, "key", None).unwrap(), Some(i64::MAX));
    let bits = dict_item::<Double>(&data, "key", None).unwrap().unwrap().bits;
    assert_eq!(f64::from_bits(bits), u64::MAX as f64);
    let data = dict_with("key", DictValue::Number(DictNumber::Negative(i64::MIN)));
    assert_eq!(dict_item::<i64>(&data, "key", None).unwrap(), Some(i64::MIN));
    let bits = dict_item::<Double>(&data, "key", None).unwrap().unwrap().bits;
    assert_eq!(f64::from_bits(bits), i64::MIN as f64);
}

#[test]
fn doubles_are_cut_as_the_language_cuts_them() {
    let mut samples = vec![
        0.0,
        -0.0,
        0.5,
        -0.9,
        1.0,
        1.9999,
        -2.5,
        1e15,
        -1e15 - 0.5,
        4503599627370497.5,
        9007199254740993.0,
        9.3e18,
        -9.3e18,
        9223372036854775807.0,
        -9223372036854775808.0,
        1e300,
        -1e300,
        5e-324,
        f64::MAX,
        f64::MIN,
        f64::MIN_POSITIVE,
        f64::INFINITY,
        f64::NEG_INFINITY,
        f64::NAN,
    ];
    let mut x = 1.0f64;
    for _ in 0..70 {
        samples.push(x * 1.37);
        samples.push(-x * 1.61);
        x *= 2.0;
    }
    for value in samples {
        assert_eq!(float_to_int(value.to_bits()), value as i64, "{value}");
        assert_eq!(double_is_zero(value.to_bits()), value == 0.0, "{value}");
        for other in [0.0, -0.0, 1.0, -1.0, 5.0, 1e18, f64::NAN, f64::INFINITY] {
            assert_eq!(
                double_at_least(value.to_bits(), other.to_bits()),
                value >= other,
                "{value} {other}"
            );
        }
    }
}

#[test]
fn integers_become_the_nearest_doubles() {
    for n in [0, 1, 2, 3, 5, 3600, 86_400, (1 << 53) - 1, 1 << 53, (1 << 53) + 1, u64::MAX] {
        assert_eq!(integer_to_double(i128::from(n)), (n as f64).to_bits(), "{n}");
    }
    for n in [-1, -9, -3600, i64::MIN] {
        assert_eq!(integer_to_double(i128::from(n)), (n as f64).to_bits(), "{n}");
    }
    assert_eq!(integer_to_double(0), 0);
    assert_eq!(integer_to_double(3600), 0x40ac_2000_0000_0000);
    assert!(double_at_least(integer_to_double(5), integer_to_double(5)));
    assert!(!double_at_least(integer_to_double(4), integer_to_double(5)));
}
