//! Command line arguments and the values of options.

use crate::text;
use crate::textmap::TextMap;
use vstd::prelude::*;
use vstd::string::*;

verus! {

/// Maximum number of communication objects.
pub const MAX_COM_INSTANCES: usize = 128;

/// Exit code of a success.
pub const RC_OK: i32 = 0;

/// Exit code of a failure.
pub const RC_ERROR: i32 = 1;

/// Exit code of an argument error.
pub const RC_USAGE: i32 = 2;

/// Exit code of an interrupted session.
pub const RC_INTERRUPT: i32 = 130;

/// Seconds that a suffix stands for, if it is one.
pub open spec fn suffix_seconds(c: char) -> Option<nat> {
    if c == 's' {
        Some(1)
    } else if c == 'm' {
        Some(60)
    } else if c == 'h' {
        Some(3600)
    } else if c == 'd' {
        Some(86400)
    } else {
        None
    }
}

/// Number of seconds that a duration denotes: digits with a suffix, or digits
/// alone for seconds. White space around it does not count.
pub open spec fn seconds_of(value: Seq<char>) -> Option<nat> {
    let data = text::trimmed(value);
    if data.len() == 0 {
        None
    } else {
        let (digits, unit) = match suffix_seconds(data.last()) {
            Some(unit) => (data.drop_last(), unit),
            None => (data, 1),
        };
        if text::all_digits(digits) && text::digits_value(digits) * unit <= u64::MAX {
            Some(text::digits_value(digits) * unit)
        } else {
            None
        }
    }
}

fn unit_of(c: char) -> (r: Option<u64>)
    ensures
        match r {
            Some(n) => suffix_seconds(c) == Some(n as nat),
            None => suffix_seconds(c) is None,
        },
{
    if c == 's' {
        Some(1)
    } else if c == 'm' {
        Some(60)
    } else if c == 'h' {
        Some(3600)
    } else if c == 'd' {
        Some(86400)
    } else {
        None
    }
}

fn read_seconds(data: &str) -> (r: Option<u64>)
    requires
        data@ == text::trimmed(data@),
    ensures
        match r {
            Some(n) => seconds_of(data@) == Some(n as nat),
            None => seconds_of(data@) is None,
        },
{
    let v = text::chars_of(data);
    if v.len() == 0 {
        return None;
    }
    let last = v[v.len() - 1];
    match unit_of(last) {
        Some(unit) => {
            let front = text::text_of_range(&v, 0, v.len() - 1);
            assert(front@ =~= data@.drop_last());
            let ghost value = text::digits_value(front@);
            match text::parse_digits(front.as_str(), 0xffff_ffff_ffff_ffff) {
                Some(n) => n.checked_mul(unit),
                None => {
                    assert(value > u64::MAX ==> value * unit > u64::MAX) by (nonlinear_arith)
                        requires
                            unit >= 1,
                    ;
                    None
                },
            }
        },
        None => text::parse_digits(data, 0xffff_ffff_ffff_ffff),
    }
}

/// Parse a duration such as `30s`, `4m`, `5h` or `20d`; a bare number means
/// seconds.
pub fn parse_time_config(value: &str) -> (r: Result<u64, String>)
    ensures
        match seconds_of(value@) {
            Some(n) => r matches Ok(v) && v == n,
            None => r matches Err(m) && m@ == "Incorrect time format '"@ + (if text::trimmed(
                value@,
            ).len() == 0 {
                value@
            } else {
                text::trimmed(value@)
            }) + "'"@,
        },
{
    let data = text::trim(value);
    if data.as_str().is_empty() {
        return Err(text::cat3("Incorrect time format '", value, "'"));
    }
    proof {
        text::trimmed_twice(value@);
    }
    match read_seconds(data.as_str()) {
        Some(n) => Ok(n),
        None => Err(text::cat3("Incorrect time format '", data.as_str(), "'")),
    }
}

/// Number that an option is set to: empty text stands for the default.
pub open spec fn number_or(value: Seq<char>, default: int) -> Option<int> {
    if value.len() == 0 {
        Some(default)
    } else {
        text::signed_number(value)
    }
}

fn read_number(value: &str, default: i64) -> (r: Result<i64, String>)
    ensures
        match number_or(value@, default as int) {
            Some(n) => r matches Ok(v) && v == n,
            None => r matches Err(m) && m@ == "Invalid number"@,
        },
{
    if value.is_empty() {
        return Ok(default);
    }
    match text::parse_signed(value) {
        Some(n) => Ok(n),
        None => Err(text::owned("Invalid number")),
    }
}

/// `n`, where it is within the bounds; where it is below them, the lower one,
/// and where it is past them, `past`.
pub open spec fn held(n: int, low: int, high: int, past: int) -> int {
    if n < low {
        low
    } else if n > high {
        past
    } else {
        n
    }
}

/// Parse the number of times to repeat suites: at least once. A number that
/// does not fit means once.
pub fn parse_iterate(value: &str) -> (r: Result<usize, String>)
    ensures
        match number_or(value@, 1) {
            Some(n) => r matches Ok(v) && v == held(n, 1, usize::MAX as int, 1),
            None => r matches Err(m) && m@ == "Invalid number"@,
        },
{
    match read_number(value, 1) {
        Err(m) => Err(m),
        Ok(n) => Ok(
            if n < 1 {
                1
            } else if n as u64 > usize::MAX as u64 {
                1
            } else {
                n as usize
            },
        ),
    }
}

/// Parse the probability of fault injection, held to the range from 0 to 100.
pub fn parse_finjection(value: &str) -> (r: Result<u32, String>)
    ensures
        match number_or(value@, 0) {
            Some(n) => r matches Ok(v) && v == held(n, 0, 100, 100),
            None => r matches Err(m) && m@ == "Invalid number"@,
        },
{
    match read_number(value, 0) {
        Err(m) => Err(m),
        Ok(n) => Ok(
            if n < 0 {
                0
            } else if n > 100 {
                100
            } else {
                n as u32
            },
        ),
    }
}

/// Parse the interval of fault injection: at least one. A number that does not
/// fit means one.
pub fn parse_finterval(value: &str) -> (r: Result<u32, String>)
    ensures
        match number_or(value@, 1) {
            Some(n) => r matches Ok(v) && v == held(n, 1, u32::MAX as int, 1),
            None => r matches Err(m) && m@ == "Invalid number"@,
        },
{
    match read_number(value, 1) {
        Err(m) => Err(m),
        Ok(n) => Ok(
            if n < 1 {
                1
            } else if n > 0xffff_ffff {
                1
            } else {
                n as u32
            },
        ),
    }
}

/// Every value of these options is within its bounds.
pub proof fn options_are_held(n: int)
    ensures
        1 <= held(n, 1, usize::MAX as int, 1) <= usize::MAX,
        0 <= held(n, 0, 100, 100) <= 100,
        1 <= held(n, 1, u32::MAX as int, 1) <= u32::MAX,
{
}

/// First place where `c` stands in `s`, if any.
pub open spec fn first_of(s: Seq<char>, c: char, i: int) -> Option<int>
    decreases s.len() - i,
{
    if i >= s.len() {
        None
    } else if s[i] == c {
        Some(i)
    } else {
        first_of(s, c, i + 1)
    }
}

/// A parameter: its key and its value, or why it is none.
pub open spec fn parameter(param: Seq<char>) -> Result<(Seq<char>, Seq<char>), Seq<char>> {
    match first_of(param, '=', 0) {
        None => Err("Missing '=' assignment in '"@ + param + "' parameter"@),
        Some(at) => if at == 0 {
            Err("Empty key for '"@ + param + "' parameter"@)
        } else if at + 1 == param.len() {
            Err("Empty value for '"@ + param + "' parameter"@)
        } else {
            Ok((param.take(at), param.skip(at + 1)))
        },
    }
}

/// Parameters by key; a later one replaces an earlier one with the same key.
pub open spec fn parameters(params: Seq<Seq<char>>) -> Result<
    Map<Seq<char>, Seq<char>>,
    Seq<char>,
>
    decreases params.len(),
{
    if params.len() == 0 {
        Ok(Map::empty())
    } else {
        match parameters(params.drop_last()) {
            Err(e) => Err(e),
            Ok(before) => match parameter(params.last()) {
                Err(e) => Err(e),
                Ok((key, value)) => Ok(before.insert(key, value)),
            },
        }
    }
}

/// Configuration that a text denotes: a name, and parameters behind colons.
pub open spec fn dict_of(value: Seq<char>) -> Result<Map<Seq<char>, Seq<char>>, Seq<char>> {
    let parts = text::pieces(value, ':');
    if value == "help"@ {
        Ok(Map::empty().insert("help"@, Seq::empty()))
    } else if value.len() == 0 {
        Err("Parameters list can't be empty"@)
    } else {
        match parameters(parts.skip(1)) {
            Err(e) => Err(e),
            Ok(config) => Ok(config.insert("name"@, parts[0])),
        }
    }
}

fn read_parameter(param: &str) -> (r: Result<(String, String), String>)
    ensures
        match parameter(param@) {
            Ok((key, value)) => r matches Ok(p) && p.0@ == key && p.1@ == value,
            Err(x) => r matches Err(m) && m@ == x,
        },
{
    let v = text::chars_of(param);
    let total: usize = v.len();
    let mut at: usize = 0;
    while at < total && v[at] != '='
        invariant
            at <= total,
            total == v@.len(),
            v@ == param@,
            first_of(param@, '=', 0) == first_of(param@, '=', at as int),
        decreases total - at,
    {
        at = at + 1;
    }
    if at == total {
        return Err(text::cat3("Missing '=' assignment in '", param, "' parameter"));
    }
    if at == 0 {
        return Err(text::cat3("Empty key for '", param, "' parameter"));
    }
    if at + 1 == total {
        return Err(text::cat3("Empty value for '", param, "' parameter"));
    }
    let key = text::text_of_range(&v, 0, at);
    let value = text::text_of_range(&v, at + 1, total);
    assert(key@ =~= param@.take(at as int));
    assert(value@ =~= param@.skip(at + 1));
    Ok((key, value))
}

proof fn parameters_error_stays(params: Seq<Seq<char>>, n: int)
    requires
        0 <= n <= params.len(),
        parameters(params.take(n)) is Err,
    ensures
        parameters(params) == parameters(params.take(n)),
    decreases params.len() - n,
{
    if n == params.len() {
        assert(params.take(n) =~= params);
    } else {
        assert(params.take(n + 1).drop_last() =~= params.take(n));
        parameters_error_stays(params, n + 1);
    }
}

/// Parse a configuration such as `name:key=value:key=value`.
pub fn parse_dict_config(value: &str) -> (r: Result<TextMap, String>)
    ensures
        match dict_of(value@) {
            Ok(config) => r matches Ok(m) && m@ == config,
            Err(x) => r matches Err(m) && m@ == x,
        },
{
    let mut config = TextMap::new();
    if text::same(value, "help") {
        proof {
            reveal_strlit("");
            assert(""@ =~= Seq::<char>::empty());
        }
        config.insert("help", "");
        return Ok(config);
    }
    if value.is_empty() {
        return Err(text::owned("Parameters list can't be empty"));
    }
    let parts = text::split_on(value, ':');
    let ghost all = text::pieces(value@, ':');
    let ghost params = all.skip(1);
    let mut i: usize = 1;
    proof {
        assert(text::texts(parts@).len() == parts@.len());
        assert(params.take(0) =~= Seq::<Seq<char>>::empty());
        assert(text::texts(parts@)[0] == parts@[0]@);
    }
    while i < parts.len()
        invariant
            1 <= i <= parts@.len(),
            text::texts(parts@) == all,
            params == all.skip(1),
            parts@.len() == all.len(),
            value@ != "help"@,
            value@.len() > 0,
            all == text::pieces(value@, ':'),
            parameters(params.take(i - 1)) == Ok::<Map<Seq<char>, Seq<char>>, Seq<char>>(config@),
        decreases parts@.len() - i,
    {
        proof {
            assert(params.take(i as int).drop_last() =~= params.take(i - 1));
            assert(params.take(i as int).last() == parts@[i as int]@);
        }
        match read_parameter(parts[i].as_str()) {
            Err(m) => {
                proof {
                    parameters_error_stays(params, i as int);
                }
                return Err(m);
            },
            Ok((key, param)) => {
                config.insert(key.as_str(), param.as_str());
            },
        }
        i = i + 1;
    }
    assert(params.take(i - 1) =~= params);
    config.insert("name", parts[0].as_str());
    Ok(config)
}

/// A parameter that is written as a text is read back, where its key has no
/// equals sign.
pub proof fn parameter_round_trip(key: Seq<char>, value: Seq<char>)
    requires
        key.len() > 0,
        value.len() > 0,
        !key.contains('='),
    ensures
        parameter(key + seq!['='] + value) == Ok::<(Seq<char>, Seq<char>), Seq<char>>((key, value)),
{
    let param = key + seq!['='] + value;
    let at = key.len() as int;
    assert forall|j: int| 0 <= j < at implies param[j] != '=' by {
        assert(param[j] == key[j]);
    }
    first_is(param, '=', 0, at);
    assert(param.take(at) =~= key);
    assert(param.skip(at + 1) =~= value);
}

proof fn first_is(s: Seq<char>, c: char, i: int, at: int)
    requires
        0 <= i <= at < s.len(),
        s[at] == c,
        forall|j: int| i <= j < at ==> s[j] != c,
    ensures
        first_of(s, c, i) == Some(at),
    decreases at - i,
{
    if i < at {
        first_is(s, c, i + 1, at);
    }
}

/// Text of a configuration: its name, and each parameter behind a colon.
pub open spec fn written(name: Seq<char>, params: Seq<(Seq<char>, Seq<char>)>) -> Seq<char>
    decreases params.len(),
{
    if params.len() == 0 {
        name
    } else {
        let (key, value) = params.last();
        written(name, params.drop_last()).push(':') + (key + seq!['='] + value)
    }
}

/// Parameters by key; a later one replaces an earlier one.
pub open spec fn mapped(params: Seq<(Seq<char>, Seq<char>)>) -> Map<Seq<char>, Seq<char>>
    decreases params.len(),
{
    if params.len() == 0 {
        Map::empty()
    } else {
        mapped(params.drop_last()).insert(params.last().0, params.last().1)
    }
}

/// Whether a parameter can be read back.
pub open spec fn is_plain(param: (Seq<char>, Seq<char>)) -> bool {
    let (key, value) = param;
    &&& key.len() > 0
    &&& value.len() > 0
    &&& !key.contains('=')
    &&& !key.contains(':')
    &&& !value.contains(':')
}

proof fn written_pieces(name: Seq<char>, params: Seq<(Seq<char>, Seq<char>)>)
    requires
        !name.contains(':'),
        forall|i: int| 0 <= i < params.len() ==> is_plain(#[trigger] params[i]),
    ensures
        ({
            let p = text::pieces(written(name, params), ':');
            &&& p.len() == params.len() + 1
            &&& p[0] == name
            &&& parameters(p.skip(1)) == Ok::<Map<Seq<char>, Seq<char>>, Seq<char>>(mapped(params))
        }),
    decreases params.len(),
{
    let p = text::pieces(written(name, params), ':');
    if params.len() == 0 {
        text::pieces_grow(Seq::empty(), name, ':');
        assert(Seq::<char>::empty() + name =~= name);
        assert(p =~= seq![name]);
        assert(p.skip(1) =~= Seq::<Seq<char>>::empty());
    } else {
        let front = params.drop_last();
        assert forall|i: int| 0 <= i < front.len() implies is_plain(#[trigger] front[i]) by {
            assert(front[i] == params[i]);
        }
        written_pieces(name, front);
        let before = written(name, front);
        let q = text::pieces(before, ':');
        let (key, value) = params.last();
        assert(is_plain(params[params.len() - 1]));
        let body = key + seq!['='] + value;
        if body.contains(':') {
            let i = choose|i: int| 0 <= i < body.len() && body[i] == ':';
            if i < key.len() {
                assert(key[i] == ':');
            } else if i > key.len() {
                assert(value[i - key.len() - 1] == ':');
            }
        }
        let opened = before.push(':');
        assert(opened.drop_last() =~= before);
        assert(text::pieces(opened, ':') == q.push(Seq::<char>::empty()));
        text::pieces_grow(opened, body, ':');
        assert(q.push(Seq::<char>::empty()).drop_last() =~= q);
        assert(Seq::<char>::empty() + body =~= body);
        assert(p == q.push(body));
        assert(p.skip(1).drop_last() =~= q.skip(1));
        assert(p.skip(1).last() == body);
        parameter_round_trip(key, value);
    }
}

/// A configuration that is written as a text is read back, where its name and
/// parameters have no colon. A text that is empty, or that asks for help, is
/// none.
pub proof fn config_round_trip(name: Seq<char>, params: Seq<(Seq<char>, Seq<char>)>)
    requires
        !name.contains(':'),
        forall|i: int| 0 <= i < params.len() ==> is_plain(#[trigger] params[i]),
        params.len() == 0 ==> name.len() > 0 && name != "help"@,
    ensures
        dict_of(written(name, params)) == Ok::<Map<Seq<char>, Seq<char>>, Seq<char>>(
            mapped(params).insert("name"@, name),
        ),
{
    written_pieces(name, params);
    if params.len() > 0 {
        let front = written(name, params.drop_last());
        let w = written(name, params);
        assert(w[front.len() as int] == ':');
        reveal_strlit("help");
    }
}

/// Command line arguments.
#[derive(Debug)]
pub struct Args {
    /// Verbose mode.
    pub verbose: bool,
    /// No colors are shown.
    pub no_colors: bool,
    /// Temporary directory.
    pub tmp_dir: String,
    /// Session to restore.
    pub restore: Option<String>,
    /// JSON output report.
    pub json_report: Option<String>,
    /// Location of the monitor file.
    pub monitor: Option<String>,
    /// Directory of external channel plugins.
    pub plugins: Option<String>,
    /// Communication channel parameters.
    pub com: Vec<TextMap>,
    /// Parameters of the system under test.
    pub sut: TextMap,
    /// Skip tests that match a regular expression.
    pub skip_tests: Option<String>,
    /// File with one regular expression per line for tests to skip.
    pub skip_file: Option<String>,
    /// Suites to run.
    pub run_suite: Option<Vec<String>>,
    /// Run the tests that match a regular expression.
    pub run_pattern: Option<String>,
    /// Command to run.
    pub run_command: Option<String>,
    /// Timeout of a suite, in seconds.
    pub suite_timeout: u64,
    /// Timeout of an execution, in seconds.
    pub exec_timeout: u64,
    /// Randomize the order of the tests.
    pub randomize: bool,
    /// How long to run the session, in seconds.
    pub runtime: u64,
    /// Number of times to repeat suites.
    pub suite_iterate: usize,
    /// Number of workers.
    pub workers: usize,
    /// Force all tests to run in parallel.
    pub force_parallel: bool,
    /// Probability of fault injection, from 0 to 100.
    pub fault_injection: u32,
    /// Interval of fault injection.
    pub fault_interval: u32,
    /// Query the target in parallel.
    pub optimize_sut: bool,
    /// List tests without executing them.
    pub dry_run: bool,
}

/// Name that a configuration gives; empty where it gives none.
pub open spec fn config_name(config: Map<Seq<char>, Seq<char>>) -> Seq<char> {
    if config.dom().contains("name"@) {
        config["name"@]
    } else {
        Seq::empty()
    }
}

/// Name that a configuration gives; empty where it gives none.
pub fn name_of(config: &TextMap) -> (r: &str)
    ensures
        r@ == config_name(config@),
{
    match config.get("name") {
        Some(name) => name,
        None => {
            proof {
                reveal_strlit("");
                assert(""@ =~= Seq::<char>::empty());
            }
            ""
        },
    }
}

impl Default for Args {
    /// Arguments of a command line without options.
    fn default() -> (r: Self)
        ensures
            !r.verbose,
            !r.no_colors,
            r.tmp_dir@ == "/tmp"@,
            r.restore is None,
            r.json_report is None,
            r.monitor is None,
            r.plugins is None,
            r.com@.len() == 0,
            r.sut@ == Map::<Seq<char>, Seq<char>>::empty().insert("name"@, "default"@),
            r.skip_tests is None,
            r.skip_file is None,
            r.run_suite is None,
            r.run_pattern is None,
            r.run_command is None,
            r.suite_timeout == 3600,
            r.exec_timeout == 3600,
            !r.randomize,
            r.runtime == 0,
            r.suite_iterate == 1,
            r.workers == 1,
            !r.force_parallel,
            r.fault_injection == 0,
            r.fault_interval == 1,
            !r.optimize_sut,
            !r.dry_run,
    {
        let mut sut = TextMap::new();
        sut.insert("name", "default");
        Args {
            verbose: false,
            no_colors: false,
            tmp_dir: text::owned("/tmp"),
            restore: None,
            json_report: None,
            monitor: None,
            plugins: None,
            com: Vec::new(),
            sut,
            skip_tests: None,
            skip_file: None,
            run_suite: None,
            run_pattern: None,
            run_command: None,
            suite_timeout: 3600,
            exec_timeout: 3600,
            randomize: false,
            runtime: 0,
            suite_iterate: 1,
            workers: 1,
            force_parallel: false,
            fault_injection: 0,
            fault_interval: 1,
            optimize_sut: false,
            dry_run: false,
        }
    }
}

/// A duration is a number of seconds, minutes, hours or days, by its suffix,
/// with white space around it; without a suffix it is in seconds.
pub proof fn durations_are_read(before: Seq<char>, n: nat, after: Seq<char>)
    requires
        text::all_space(before),
        text::all_space(after),
        n * 86400 <= u64::MAX,
    ensures
        seconds_of(before + text::decimal_text(n) + after) == Some(n),
        seconds_of(before + text::decimal_text(n).push('s') + after) == Some(n),
        seconds_of(before + text::decimal_text(n).push('m') + after) == Some(n * 60),
        seconds_of(before + text::decimal_text(n).push('h') + after) == Some(n * 3600),
        seconds_of(before + text::decimal_text(n).push('d') + after) == Some(n * 86400),
{
    let d = text::decimal_text(n);
    text::decimal_text_is_digits(n);
    assert(text::is_digit(d[0]) && text::is_digit(d[d.len() - 1]));
    text::trimming_leaves_the_core(before, d, after);
    text::trimming_leaves_the_core(before, d.push('s'), after);
    text::trimming_leaves_the_core(before, d.push('m'), after);
    text::trimming_leaves_the_core(before, d.push('h'), after);
    text::trimming_leaves_the_core(before, d.push('d'), after);
    assert(d.push('s').drop_last() =~= d);
    assert(d.push('m').drop_last() =~= d);
    assert(d.push('h').drop_last() =~= d);
    assert(d.push('d').drop_last() =~= d);
    assert(n <= n * 86400 && n * 1 == n) by (nonlinear_arith);
}

/// A text with anything but digits in front of its last character is no
/// duration, nor is one that ends with anything but a digit or a suffix, nor a
/// suffix alone, nor a blank text.
pub proof fn other_durations_are_refused(s: Seq<char>, i: int, blank: Seq<char>)
    requires
        0 <= i < s.len(),
        !text::is_space(s[0]),
        !text::is_space(s.last()),
        text::all_space(blank),
    ensures
        i < s.len() - 1 && !('0' <= s[i] <= '9') ==> seconds_of(s) is None,
        !('0' <= s.last() <= '9') && s.last() != 's' && s.last() != 'm' && s.last() != 'h'
            && s.last() != 'd' ==> seconds_of(s) is None,
        s.len() == 1 && !('0' <= s[0] <= '9') ==> seconds_of(s) is None,
        seconds_of(blank) is None,
{
    let none = Seq::<char>::empty();
    text::trimming_leaves_the_core(none, s, none);
    assert(none + s + none =~= s);
    text::trimming_leaves_the_core(blank, none, none);
    assert(blank + none + none =~= blank);
    assert(text::trimmed(blank) =~= none);
    let short = s.drop_last();
    if i < s.len() - 1 && !('0' <= s[i] <= '9') {
        assert(!text::is_digit(short[i]));
        assert(!text::is_digit(s[i]));
    }
    assert(s[s.len() - 1] == s.last());
}

/// Numeric options are read as they are written and kept within their bounds:
/// a probability up to a hundred, and anything that counts at least one.
pub proof fn numeric_options_are_read(n: nat)
    requires
        n <= i64::MAX,
    ensures
        number_or(text::decimal_text(n), 1) == Some(n as int),
        number_or(seq!['-'] + text::decimal_text(n), 1) == Some(-(n as int)),
        forall|default: int| #[trigger] number_or(Seq::empty(), default) == Some(default),
        n <= 100 ==> held(n as int, 0, 100, 100) == n,
        n > 100 ==> held(n as int, 0, 100, 100) == 100,
        n > 0 ==> held(-(n as int), 0, 100, 100) == 0,
        1 <= n <= u32::MAX ==> held(n as int, 1, u32::MAX as int, 1) == n,
        n > u32::MAX ==> held(n as int, 1, u32::MAX as int, 1) == 1,
        held(-(n as int), 1, u32::MAX as int, 1) == 1,
        1 <= n <= usize::MAX ==> held(n as int, 1, usize::MAX as int, 1) == n,
{
    text::signed_round_trip(n);
    text::decimal_text_is_digits(n);
}

/// A parameter without an equals sign, without a key or without a value is
/// refused, and the message names it.
pub proof fn bad_parameters_are_refused(s: Seq<char>)
    ensures
        !s.contains('=') ==> parameter(s) == Err::<(Seq<char>, Seq<char>), Seq<char>>(
            "Missing '=' assignment in '"@ + s + "' parameter"@,
        ),
        parameter(seq!['='] + s) == Err::<(Seq<char>, Seq<char>), Seq<char>>(
            "Empty key for '"@ + (seq!['='] + s) + "' parameter"@,
        ),
        s.len() > 0 && !s.contains('=') ==> parameter(s.push('=')) == Err::<
            (Seq<char>, Seq<char>),
            Seq<char>,
        >("Empty value for '"@ + s.push('=') + "' parameter"@),
{
    if !s.contains('=') {
        none_is(s, '=', 0);
        let t = s.push('=');
        assert forall|j: int| 0 <= j < s.len() implies t[j] != '=' by {
            assert(t[j] == s[j]);
        }
        first_is(t, '=', 0, s.len() as int);
    }
    let u = seq!['='] + s;
    assert(u[0] == '=');
}

proof fn none_is(s: Seq<char>, c: char, i: int)
    requires
        0 <= i <= s.len(),
        !s.contains(c),
    ensures
        first_of(s, c, i) is None,
    decreases s.len() - i,
{
    if i < s.len() {
        none_is(s, c, i + 1);
    }
}

/// A text that asks for help is a configuration of its own, and an empty one
/// is refused.
pub proof fn help_is_asked_for()
    ensures
        dict_of("help"@) matches Ok(m) && m.dom().contains("help"@) && !m.dom().contains("name"@),
        dict_of(Seq::empty()) == Err::<Map<Seq<char>, Seq<char>>, Seq<char>>(
            "Parameters list can't be empty"@,
        ),
{
    reveal_strlit("help");
    reveal_strlit("name");
    assert("help"@[0] != "name"@[0]);
}

} // verus!
