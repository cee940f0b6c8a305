//! SSH communication channel: configuration, remote command lines, and what
//! the replies of the server mean.
//!
//! Values are quoted and variable names validated before they become part of
//! a remote command line. Verification of host keys cannot be turned off.

use crate::com::ChannelHandle;
use crate::com::CmdResult;
use crate::com::ComChannel;
use crate::com::Plugin;
use crate::errors::ErrorView;
use crate::errors::KirkError;
use crate::output;
use crate::output::OutputCollector;
use crate::text;
use crate::textmap::EntryView;
use crate::textmap::TextMap;
use crate::words;
use crate::words::LoneBackslash;
use crate::words::SplitError;
use crate::words::SplitRules;
use vstd::prelude::*;
use vstd::string::*;

verus! {

/// Default SSH port.
pub const DEFAULT_PORT: u16 = 22;

/// Fallback session count when the `MaxSessions` probe fails.
pub const DEFAULT_MAX_SESSIONS: usize = 10;

/// Commands that report how many sessions the server allows, in the order in
/// which they are tried.
pub const SESSION_PROBES: [&'static str; 2] = [
    "grep -i '^MaxSessions' /etc/ssh/sshd_config",
    "sudo sshd -T 2>/dev/null | grep maxsessions",
];

/// Cap on bytes of a fetched file.
pub const FETCH_SIZE_CAP: usize = 16777216;

/// Validated SSH channel configuration.
pub struct SshConfig {
    /// Remote host.
    pub host: String,
    /// Login user.
    pub user: String,
    /// Private key path, when key authentication is used.
    pub key_file: Option<String>,
    /// Password for password authentication or key decryption.
    pub password: Option<String>,
    /// TCP port, never 0.
    pub port: u16,
    /// Local command run by `stop` to reset the target.
    pub reset_cmd: Option<String>,
    /// Whether remote commands run under `sudo /bin/sh -c`.
    pub sudo: bool,
    /// Expanded known-hosts path.
    pub known_hosts: String,
}

/// What a configuration says.
#[verifier::ext_equal]
pub struct SshConfigView {
    /// Remote host.
    pub host: Seq<char>,
    /// Login user.
    pub user: Seq<char>,
    /// Private key path.
    pub key_file: Option<Seq<char>>,
    /// Password.
    pub password: Option<Seq<char>>,
    /// TCP port.
    pub port: u16,
    /// Reset command.
    pub reset_cmd: Option<Seq<char>>,
    /// Whether remote commands run under `sudo`.
    pub sudo: bool,
    /// Expanded known-hosts path.
    pub known_hosts: Seq<char>,
}

impl View for SshConfig {
    type V = SshConfigView;

    open spec fn view(&self) -> SshConfigView {
        SshConfigView {
            host: self.host@,
            user: self.user@,
            key_file: text::opt_text(self.key_file),
            password: text::opt_text(self.password),
            port: self.port,
            reset_cmd: text::opt_text(self.reset_cmd),
            sudo: self.sudo,
            known_hosts: self.known_hosts@,
        }
    }
}

/// Value of an option without the white space around it; none where the
/// option is not given or blank.
pub open spec fn nonempty_of(cfg: Map<Seq<char>, Seq<char>>, key: Seq<char>) -> Option<Seq<char>> {
    if cfg.dom().contains(key) && text::trimmed(cfg[key]).len() > 0 {
        Some(text::trimmed(cfg[key]))
    } else {
        None
    }
}

fn nonempty(cfg: &TextMap, key: &str) -> (r: Option<String>)
    ensures
        text::opt_text(r) == nonempty_of(cfg@, key@),
{
    match cfg.get(key) {
        Some(value) => {
            let value = text::trim(value);
            if value.as_str().is_empty() {
                None
            } else {
                Some(value)
            }
        },
        None => None,
    }
}

/// Value of an option, or the default.
pub open spec fn option_or(
    cfg: Map<Seq<char>, Seq<char>>,
    key: Seq<char>,
    default: Seq<char>,
) -> Seq<char> {
    match nonempty_of(cfg, key) {
        Some(v) => v,
        None => default,
    }
}

fn nonempty_or(cfg: &TextMap, key: &str, default: &str) -> (r: String)
    ensures
        r@ == option_or(cfg@, key@, default@),
{
    match nonempty(cfg, key) {
        Some(v) => v,
        None => default.to_owned(),
    }
}

/// Port that a text gives: a number from 1 to 65535.
pub open spec fn port_of(raw: Option<Seq<char>>) -> Option<u16> {
    match raw {
        None => Some(DEFAULT_PORT),
        Some(s) => match text::signed_number(text::trimmed(s)) {
            Some(n) => if 1 <= n <= 65535 {
                Some(n as u16)
            } else {
                None
            },
            None => None,
        },
    }
}

/// Error for a port that is none.
pub open spec fn port_error() -> ErrorView {
    ErrorView::Communication("'port' must be an integer between 1-65535"@)
}

fn parse_port(raw: Option<&str>) -> (r: Result<u16, KirkError>)
    ensures
        match r {
            Ok(port) => port_of(text::opt_str(raw)) == Some(port),
            Err(e) => port_of(text::opt_str(raw)) is None && e@ == port_error(),
        },
{
    let raw = match raw {
        Some(raw) => raw,
        None => {
            return Ok(DEFAULT_PORT);
        },
    };
    let raw = text::trim(raw);
    match text::parse_signed(raw.as_str()) {
        Some(n) => if 1 <= n && n <= 65535 {
            return Ok(n as u16);
        },
        None => {},
    }
    Err(KirkError::Communication(text::owned("'port' must be an integer between 1-65535")))
}

/// Whether a text asks for `sudo`: 1 does, 0 does not.
pub open spec fn sudo_of(raw: Option<Seq<char>>) -> Option<bool> {
    match raw {
        None => Some(false),
        Some(s) => match text::signed_number(text::trimmed(s)) {
            Some(n) => if n == 0 {
                Some(false)
            } else if n == 1 {
                Some(true)
            } else {
                None
            },
            None => None,
        },
    }
}

/// Error for a `sudo` option that is neither 0 nor 1.
pub open spec fn sudo_error() -> ErrorView {
    ErrorView::Communication("'sudo' must be 0 or 1"@)
}

fn parse_sudo(raw: Option<&str>) -> (r: Result<bool, KirkError>)
    ensures
        match r {
            Ok(sudo) => sudo_of(text::opt_str(raw)) == Some(sudo),
            Err(e) => sudo_of(text::opt_str(raw)) is None && e@ == sudo_error(),
        },
{
    let raw = match raw {
        Some(raw) => raw,
        None => {
            return Ok(false);
        },
    };
    let raw = text::trim(raw);
    match text::parse_signed(raw.as_str()) {
        Some(n) => {
            if n == 0 {
                return Ok(false);
            }
            if n == 1 {
                return Ok(true);
            }
        },
        None => {},
    }
    Err(KirkError::Communication(text::owned("'sudo' must be 0 or 1")))
}

/// Known-hosts path that a text gives: `~` alone or in front of `/` stands
/// for the home directory. `/dev/null` would turn verification off and is
/// refused.
pub open spec fn known_hosts_of(raw: Seq<char>, home: Option<Seq<char>>) -> Result<
    Seq<char>,
    ErrorView,
> {
    if raw == "/dev/null"@ {
        Err(
            ErrorView::Communication(
                "known_hosts '/dev/null' disables host-key verification; refusing"@,
            ),
        )
    } else if raw.len() > 0 && raw[0] == '~' {
        match home {
            None => Err(
                ErrorView::Communication("cannot expand '~' in known_hosts: $HOME is not set"@),
            ),
            Some(home) => if raw.len() == 1 || raw[1] == '/' {
                Ok(home + raw.drop_first())
            } else {
                Err(ErrorView::Communication("cannot expand '~user' in known_hosts"@))
            },
        }
    } else {
        Ok(raw)
    }
}

/// Expand a known-hosts path, refusing `/dev/null`.
pub fn expand_known_hosts(raw: &str, home: Option<&str>) -> (r: Result<String, KirkError>)
    ensures
        match known_hosts_of(raw@, text::opt_str(home)) {
            Ok(path) => r matches Ok(p) && p@ == path,
            Err(x) => r matches Err(e) && e@ == x,
        },
{
    if text::same(raw, "/dev/null") {
        return Err(
            KirkError::Communication(
                text::owned("known_hosts '/dev/null' disables host-key verification; refusing"),
            ),
        );
    }
    let v = text::chars_of(raw);
    if v.len() > 0 && v[0] == '~' {
        match home {
            None => Err(
                KirkError::Communication(
                    text::owned("cannot expand '~' in known_hosts: $HOME is not set"),
                ),
            ),
            Some(home) => if v.len() == 1 || v[1] == '/' {
                let rest = text::text_of_range(&v, 1, v.len());
                assert(rest@ =~= raw@.drop_first());
                Ok(text::cat2(home, rest.as_str()))
            } else {
                Err(KirkError::Communication(text::owned("cannot expand '~user' in known_hosts")))
            },
        }
    } else {
        Ok(raw.to_owned())
    }
}

/// Configuration that the options give, or the first error among them.
pub open spec fn config_of(
    cfg: Map<Seq<char>, Seq<char>>,
    home: Option<Seq<char>>,
) -> Result<SshConfigView, ErrorView> {
    match port_of(nonempty_of(cfg, "port"@)) {
        None => Err(port_error()),
        Some(port) => match sudo_of(nonempty_of(cfg, "sudo"@)) {
            None => Err(sudo_error()),
            Some(sudo) => match known_hosts_of(
                option_or(cfg, "known_hosts"@, "~/.ssh/known_hosts"@),
                home,
            ) {
                Err(e) => Err(e),
                Ok(known_hosts) => Ok(
                    SshConfigView {
                        host: option_or(cfg, "host"@, "localhost"@),
                        user: option_or(cfg, "user"@, "root"@),
                        key_file: nonempty_of(cfg, "key_file"@),
                        password: nonempty_of(cfg, "password"@),
                        port,
                        reset_cmd: nonempty_of(cfg, "reset_cmd"@),
                        sudo,
                        known_hosts,
                    },
                ),
            },
        },
    }
}

/// Optional text in the form meant for programmers.
pub open spec fn quoted_option(s: Option<Seq<char>>) -> Seq<char> {
    match s {
        Some(s) => "Some("@ + text::quoted_text(s) + ")"@,
        None => "None"@,
    }
}

fn quote_option(s: &Option<String>) -> (r: String)
    ensures
        r@ == quoted_option(text::opt_text(*s)),
{
    match s {
        Some(s) => {
            let q = text::quoted(s.as_str());
            text::cat3("Some(", q.as_str(), ")")
        },
        None => text::owned("None"),
    }
}

/// How a configuration is shown: all of it but the password.
pub open spec fn shown(c: SshConfigView) -> Seq<char> {
    "SshConfig { host: "@ + text::quoted_text(c.host) + ", user: "@ + text::quoted_text(c.user)
        + ", key_file: "@ + quoted_option(c.key_file) + ", password: \"<redacted>\", port: "@
        + text::decimal_text(c.port as nat) + ", reset_cmd: "@ + quoted_option(c.reset_cmd)
        + ", sudo: "@ + (if c.sudo {
        "true"@
    } else {
        "false"@
    }) + ", known_hosts: "@ + text::quoted_text(c.known_hosts) + " }"@
}

/// Two configurations that differ in nothing but the password are shown the
/// same: the password never shows.
pub proof fn password_is_not_shown(c: SshConfigView, other: Option<Seq<char>>)
    ensures
        shown(SshConfigView { password: other, ..c }) == shown(c),
{
}

impl SshConfig {
    /// Build a validated configuration from options, given the home
    /// directory of the user.
    pub fn from_map(cfg: &TextMap, home: Option<&str>) -> (r: Result<Self, KirkError>)
        ensures
            match config_of(cfg@, text::opt_str(home)) {
                Ok(c) => r matches Ok(v) && v@ == c,
                Err(x) => r matches Err(e) && e@ == x,
            },
    {
        let raw_port = nonempty(cfg, "port");
        let raw_sudo = nonempty(cfg, "sudo");
        let port: u16 = match parse_port(text::borrow_opt(&raw_port)) {
            Ok(port) => port,
            Err(e) => {
                return Err(e);
            },
        };
        let sudo = match parse_sudo(text::borrow_opt(&raw_sudo)) {
            Ok(sudo) => sudo,
            Err(e) => {
                return Err(e);
            },
        };
        let raw_known = nonempty_or(cfg, "known_hosts", "~/.ssh/known_hosts");
        let known_hosts = match expand_known_hosts(raw_known.as_str(), home) {
            Ok(path) => path,
            Err(e) => {
                return Err(e);
            },
        };
        Ok(
            SshConfig {
                host: nonempty_or(cfg, "host", "localhost"),
                user: nonempty_or(cfg, "user", "root"),
                key_file: nonempty(cfg, "key_file"),
                password: nonempty(cfg, "password"),
                port,
                reset_cmd: nonempty(cfg, "reset_cmd"),
                sudo,
                known_hosts,
            },
        )
    }

    /// Show the configuration without its password.
    pub fn debug_text(&self) -> (r: String)
        ensures
            r@ == shown(self@),
    {
        let host = text::quoted(self.host.as_str());
        let user = text::quoted(self.user.as_str());
        let key_file = quote_option(&self.key_file);
        let port = text::decimal(self.port as u64);
        let reset_cmd = quote_option(&self.reset_cmd);
        let known_hosts = text::quoted(self.known_hosts.as_str());
        let mut r = text::cat4("SshConfig { host: ", host.as_str(), ", user: ", user.as_str());
        r.append(", key_file: ");
        r.append(key_file.as_str());
        r.append(", password: \"<redacted>\", port: ");
        r.append(port.as_str());
        r.append(", reset_cmd: ");
        r.append(reset_cmd.as_str());
        r.append(", sudo: ");
        r.append(
            if self.sudo {
                "true"
            } else {
                "false"
            },
        );
        r.append(", known_hosts: ");
        r.append(known_hosts.as_str());
        r.append(" }");
        r
    }
}

impl Clone for SshConfig {
    fn clone(&self) -> (r: Self)
        ensures
            r@ == self@,
    {
        SshConfig {
            host: self.host.clone(),
            user: self.user.clone(),
            key_file: text::copy_opt(&self.key_file),
            password: text::copy_opt(&self.password),
            port: self.port,
            reset_cmd: text::copy_opt(&self.reset_cmd),
            sudo: self.sudo,
            known_hosts: self.known_hosts.clone(),
        }
    }
}

/// Single-quote a value for a remote command line.
pub fn quote_sh(value: &str) -> (r: String)
    ensures
        r@ == words::single_quoted(value@),
{
    words::single_quote(value)
}

/// Exports of variables in front of a command.
pub open spec fn exports(env: Seq<EntryView>) -> Seq<char>
    decreases env.len(),
{
    if env.len() == 0 {
        Seq::empty()
    } else {
        exports(env.drop_last()) + "export "@ + env.last().0 + "="@ + words::single_quoted(
            env.last().1,
        ) + " && "@
    }
}

/// Name of the first variable that is no shell variable name.
pub open spec fn bad_name(env: Seq<EntryView>) -> Option<Seq<char>>
    decreases env.len(),
{
    if env.len() == 0 {
        None
    } else {
        match bad_name(env.drop_last()) {
            Some(name) => Some(name),
            None => if words::is_variable_name(env.last().0) {
                None
            } else {
                Some(env.last().0)
            },
        }
    }
}

/// Entries of an optional environment, in the order of their names.
pub open spec fn env_entries(env: Option<&TextMap>) -> Seq<EntryView> {
    match env {
        Some(m) => m.list(),
        None => Seq::empty(),
    }
}

/// Command line that runs `cmd` in a directory with variables set.
pub open spec fn remote_script(
    cmd: Seq<char>,
    cwd: Option<Seq<char>>,
    env: Seq<EntryView>,
) -> Seq<char> {
    let place = match cwd {
        Some(dir) => if dir.len() > 0 {
            "cd "@ + words::single_quoted(dir) + " && "@
        } else {
            Seq::empty()
        },
        None => Seq::empty(),
    };
    place + exports(env) + cmd
}

/// Remote command line, or the error that a variable name gives.
pub open spec fn remote_command(
    cmd: Seq<char>,
    cwd: Option<Seq<char>>,
    env: Seq<EntryView>,
    sudo: bool,
) -> Result<Seq<char>, ErrorView> {
    match bad_name(env) {
        Some(name) => Err(
            ErrorView::Communication("invalid environment variable name: "@ + name),
        ),
        None => {
            let script = remote_script(cmd, cwd, env);
            Ok(
                if sudo {
                    "sudo /bin/sh -c "@ + words::single_quoted(script)
                } else {
                    script
                },
            )
        },
    }
}

proof fn bad_name_stays(env: Seq<EntryView>, n: int)
    requires
        0 <= n <= env.len(),
        bad_name(env.take(n)) is Some,
    ensures
        bad_name(env) == bad_name(env.take(n)),
    decreases env.len() - n,
{
    if n == env.len() {
        assert(env.take(n) =~= env);
    } else {
        assert(env.take(n + 1).drop_last() =~= env.take(n));
        bad_name_stays(env, n + 1);
    }
}

/// Build the remote command line: values quoted, variable names validated and
/// set in the order of their names.
pub fn build_remote_command(
    cmd: &str,
    cwd: Option<&str>,
    env: Option<&TextMap>,
    sudo: bool,
) -> (r: Result<String, KirkError>)
    ensures
        match remote_command(cmd@, text::opt_str(cwd), env_entries(env), sudo) {
            Ok(line) => r matches Ok(s) && s@ == line,
            Err(x) => r matches Err(e) && e@ == x,
        },
{
    let mut script = String::new();
    match cwd {
        Some(dir) => if !dir.is_empty() {
            let dir = quote_sh(dir);
            script = text::cat3("cd ", dir.as_str(), " && ");
        },
        None => {},
    }
    let ghost place = script@;
    match env {
        Some(map) => {
            let n: usize = map.len();
            let mut i: usize = 0;
            assert(place + exports(map.list().take(0)) =~= place);
            while i < n
                invariant
                    i <= n,
                    n == map.list().len(),
                    env == Some(map),
                    bad_name(map.list().take(i as int)) is None,
                    script@ == place + exports(map.list().take(i as int)),
                decreases n - i,
            {
                let ghost now = map.list().take(i + 1);
                assert(now.drop_last() =~= map.list().take(i as int));
                assert(now.last() == map.list()[i as int]);
                let name = map.key_at(i);
                if !words::variable_name(name) {
                    proof {
                        bad_name_stays(map.list(), i + 1);
                    }
                    return Err(
                        KirkError::Communication(
                            text::cat2("invalid environment variable name: ", name),
                        ),
                    );
                }
                let value = quote_sh(map.value_at(i));
                let ghost before = script@;
                script.append("export ");
                script.append(name);
                script.append("=");
                script.append(value.as_str());
                script.append(" && ");
                assert(script@ =~= place + exports(now));
                i = i + 1;
            }
            assert(map.list().take(n as int) =~= map.list());
        },
        None => {
            assert(place + exports(Seq::<EntryView>::empty()) =~= place);
        },
    }
    script.append(cmd);
    if sudo {
        let script = quote_sh(script.as_str());
        return Ok(text::cat2("sudo /bin/sh -c ", script.as_str()));
    }
    Ok(script)
}

/// What the remote shell of `sudo` gets is the very script that would run
/// without it.
pub proof fn sudo_keeps_script(cmd: Seq<char>, cwd: Option<Seq<char>>, env: Seq<EntryView>)
    requires
        bad_name(env) is None,
    ensures
        words::split_line(remote_command(cmd, cwd, env, true)->Ok_0, argv_rules()) == Ok::<
            Seq<Seq<char>>,
            SplitError,
        >(seq!["sudo"@, "/bin/sh"@, "-c"@, remote_command(cmd, cwd, env, false)->Ok_0]),
{
    let script = remote_script(cmd, cwd, env);
    let rules = argv_rules();
    let quoted = words::single_quoted(script);
    reveal_strlit("sudo /bin/sh -c ");
    reveal_strlit("sudo");
    reveal_strlit("/bin/sh");
    reveal_strlit("-c");
    let line = "sudo /bin/sh -c "@ + quoted;
    let w0 = words::line_start();
    plain_word("sudo"@, " /bin/sh -c "@ + quoted, w0, rules);
    reveal_strlit(" /bin/sh -c ");
    reveal_strlit(" -c ");
    reveal_strlit(" ");
    assert(line =~= "sudo"@ + (" /bin/sh -c "@ + quoted));
    let s1 = words::SplitState { current: "sudo"@, in_word: true, ..w0 };
    assert(Seq::<char>::empty() + "sudo"@ =~= "sudo"@);
    let r1 = " /bin/sh -c "@ + quoted;
    assert(r1[0] == ' ');
    let e1 = words::word_ended(s1);
    assert(r1.drop_first() =~= "/bin/sh"@ + (" -c "@ + quoted));
    plain_word("/bin/sh"@, " -c "@ + quoted, e1, rules);
    let s2 = words::SplitState { current: "/bin/sh"@, in_word: true, ..e1 };
    assert(Seq::<char>::empty() + "/bin/sh"@ =~= "/bin/sh"@);
    let r2 = " -c "@ + quoted;
    assert(r2[0] == ' ');
    let e2 = words::word_ended(s2);
    assert(r2.drop_first() =~= "-c"@ + (" "@ + quoted));
    plain_word("-c"@, " "@ + quoted, e2, rules);
    let s3 = words::SplitState { current: "-c"@, in_word: true, ..e2 };
    assert(Seq::<char>::empty() + "-c"@ =~= "-c"@);
    let r3 = " "@ + quoted;
    assert(r3[0] == ' ');
    let e3 = words::word_ended(s3);
    assert(r3.drop_first() =~= quoted + Seq::<char>::empty());
    words::quoted_is_read(script, Seq::empty(), e3, rules);
    let s4 = words::SplitState { current: e3.current + script, in_word: true, ..e3 };
    assert(Seq::<char>::empty() + script =~= script);
    assert(words::word_ended(s4).words =~= seq!["sudo"@, "/bin/sh"@, "-c"@, script]);
}

/// Characters without a meaning of their own add to the word at hand.
proof fn plain_word(
    word: Seq<char>,
    rest: Seq<char>,
    st: words::SplitState,
    rules: SplitRules,
)
    requires
        st.quote is None,
        !rules.refuse_syntax,
        word.len() > 0,
        forall|i: int|
            0 <= i < word.len() ==> {
                &&& !text::is_space(#[trigger] word[i])
                &&& word[i] != '\''
                &&& word[i] != '"'
                &&& word[i] != '\\'
            },
    ensures
        words::split_rest(word + rest, st, rules) == words::split_rest(
            rest,
            words::SplitState { current: st.current + word, in_word: true, ..st },
            rules,
        ),
    decreases word.len(),
{
    let line = word + rest;
    assert(line[0] == word[0]);
    assert(!text::is_space(word[0]));
    let next = words::with_char(st, word[0]);
    assert(line.drop_first() =~= word.drop_first() + rest);
    if word.len() == 1 {
        assert(line.drop_first() =~= rest);
        assert(next.current =~= st.current + word);
    } else {
        assert forall|i: int| 0 <= i < word.drop_first().len() implies {
            &&& !text::is_space(#[trigger] word.drop_first()[i])
            &&& word.drop_first()[i] != '\''
            &&& word.drop_first()[i] != '"'
            &&& word.drop_first()[i] != '\\'
        } by {
            assert(word.drop_first()[i] == word[i + 1]);
        }
        plain_word(word.drop_first(), rest, next, rules);
        assert(next.current + word.drop_first() =~= st.current + word);
    }
}

/// Number of sessions that a line of the server configuration gives.
pub open spec fn sessions_in(line: Seq<char>) -> Option<nat> {
    let line = text::trimmed(line);
    let big = "MaxSessions "@;
    let small = "maxsessions "@;
    let rest = if big.is_prefix_of(line) {
        Some(line.skip(big.len() as int))
    } else if small.is_prefix_of(line) {
        Some(line.skip(small.len() as int))
    } else {
        None
    };
    match rest {
        Some(rest) => {
            let words = text::blank_words(rest);
            if words.len() > 0 {
                text::unsigned_number(words[0], usize::MAX as nat)
            } else {
                None
            }
        },
        None => None,
    }
}

/// Number of sessions that the first line that gives one does.
pub open spec fn first_sessions(lines: Seq<Seq<char>>) -> Option<nat>
    decreases lines.len(),
{
    if lines.len() == 0 {
        None
    } else {
        match sessions_in(lines[0]) {
            Some(n) => Some(n),
            None => first_sessions(lines.drop_first()),
        }
    }
}

fn line_sessions(line: &str) -> (r: Option<usize>)
    ensures
        match r {
            Some(n) => sessions_in(line@) == Some(n as nat),
            None => sessions_in(line@) is None,
        },
{
    let line = text::trim(line);
    let rest = match text::strip_prefix(line.as_str(), "MaxSessions ") {
        Some(rest) => rest,
        None => match text::strip_prefix(line.as_str(), "maxsessions ") {
            Some(rest) => rest,
            None => {
                return None;
            },
        },
    };
    let words = text::split_whitespace(rest.as_str());
    assert(text::texts(words@).len() == words@.len());
    if words.len() == 0 {
        return None;
    }
    assert(text::texts(words@)[0] == words@[0]@);
    match text::parse_unsigned(words[0].as_str(), usize::MAX as u64) {
        Some(n) => Some(n as usize),
        None => None,
    }
}

/// Parse the server `MaxSessions` from probe output.
pub fn parse_max_sessions(output: &str) -> (r: Option<usize>)
    ensures
        match r {
            Some(n) => first_sessions(text::lines_of(output@)) == Some(n as nat),
            None => first_sessions(text::lines_of(output@)) is None,
        },
{
    let lines = text::lines(output);
    let ghost all = text::texts(lines@);
    let mut i: usize = 0;
    assert(all.skip(0) =~= all);
    while i < lines.len()
        invariant
            i <= lines@.len(),
            all == text::texts(lines@),
            first_sessions(all) == first_sessions(all.skip(i as int)),
            all == text::lines_of(output@),
        decreases lines@.len() - i,
    {
        assert(all.skip(i as int)[0] == lines@[i as int]@);
        assert(all.skip(i as int).drop_first() =~= all.skip(i + 1));
        match line_sessions(lines[i].as_str()) {
            Some(n) => {
                return Some(n);
            },
            None => {},
        }
        i = i + 1;
    }
    None
}

/// Number of sessions to use, from the outputs of the two probes that
/// succeeded.
pub fn session_limit(first: Option<&str>, second: Option<&str>) -> (n: usize)
    ensures
        n == limit_of(text::opt_str(first), text::opt_str(second)),
{
    match first {
        Some(output) => match parse_max_sessions(output) {
            Some(n) => {
                return if n == 0 {
                    1
                } else {
                    n
                };
            },
            None => {},
        },
        None => {},
    }
    match second {
        Some(output) => match parse_max_sessions(output) {
            Some(n) => {
                return if n == 0 {
                    1
                } else {
                    n
                };
            },
            None => {},
        },
        None => {},
    }
    DEFAULT_MAX_SESSIONS
}

/// Number of sessions that a probe gives.
pub open spec fn probed(output: Option<Seq<char>>) -> Option<nat> {
    match output {
        Some(s) => first_sessions(text::lines_of(s)),
        None => None,
    }
}

/// Number of sessions to use: what the first probe that gives a number says,
/// at least one, or the default.
pub open spec fn limit_of(first: Option<Seq<char>>, second: Option<Seq<char>>) -> nat {
    let n = match probed(first) {
        Some(n) => n,
        None => match probed(second) {
            Some(n) => n,
            None => DEFAULT_MAX_SESSIONS as nat,
        },
    };
    if n == 0 {
        1
    } else {
        n
    }
}

/// How a local command is split.
pub open spec fn argv_rules() -> SplitRules {
    SplitRules { lone_backslash: LoneBackslash::Dropped, refuse_syntax: false }
}

/// Split a local command into the program and its arguments.
pub fn split_argv(cmd: &str) -> (r: Result<Vec<String>, KirkError>)
    ensures
        match words::split_line(cmd@, argv_rules()) {
            Ok(argv) => r matches Ok(v) && text::texts(v@) == argv,
            Err(_) => r matches Err(e) && e@ == ErrorView::Communication(
                "reset command has an unterminated quote"@,
            ),
        },
{
    let rules = SplitRules { lone_backslash: LoneBackslash::Dropped, refuse_syntax: false };
    match words::split_words(cmd, rules) {
        Ok(argv) => Ok(argv),
        Err(_) => Err(
            KirkError::Communication(text::owned("reset command has an unterminated quote")),
        ),
    }
}

/// Words of a reset command; there must be at least one.
pub fn reset_argv(cmd: &str) -> (r: Result<Vec<String>, KirkError>)
    ensures
        match words::split_line(cmd@, argv_rules()) {
            Ok(argv) => if argv.len() > 0 {
                r matches Ok(v) && text::texts(v@) == argv && v@.len() > 0
            } else {
                r matches Err(e) && e@ == ErrorView::Communication("reset command is empty"@)
            },
            Err(_) => r matches Err(e) && e@ == ErrorView::Communication(
                "reset command has an unterminated quote"@,
            ),
        },
{
    match split_argv(cmd) {
        Ok(argv) => {
            assert(text::texts(argv@).len() == argv@.len());
            if argv.len() == 0 {
                return Err(communication("reset command is empty"));
            }
            Ok(argv)
        },
        Err(e) => Err(e),
    }
}

fn communication(message: &str) -> (e: KirkError)
    ensures
        e@ == ErrorView::Communication(message@),
{
    KirkError::Communication(text::owned(message))
}

/// Error for an operation that took too long.
pub fn timed_out(what: &str) -> (e: KirkError)
    ensures
        e@ == ErrorView::Communication("SSH "@ + what@ + " timed out"@),
{
    KirkError::Communication(text::cat3("SSH ", what, " timed out"))
}

/// What a remote command sends.
#[derive(Debug, Clone, PartialEq, Eq)]
pub enum RemoteMsg {
    /// Bytes of stdout or stderr.
    Data(Vec<u8>),
    /// Exit status.
    ExitStatus(u32),
    /// The channel is closed.
    Close,
    /// Anything else.
    Other,
}

/// Bytes and status of a remote command, with a cap on the bytes.
#[derive(Debug)]
pub struct RemoteBytes {
    out: Vec<u8>,
    status: Option<u32>,
    cap: Option<usize>,
}

impl RemoteBytes {
    /// Bytes so far.
    pub closed spec fn bytes(self) -> Seq<u8> {
        self.out@
    }

    /// Last exit status so far.
    pub closed spec fn exit_status(self) -> Option<u32> {
        self.status
    }

    /// Cap on the bytes.
    pub closed spec fn limit(self) -> Option<usize> {
        self.cap
    }

    /// Nothing came yet.
    pub fn new(cap: Option<usize>) -> (r: Self)
        ensures
            r.bytes() == Seq::<u8>::empty(),
            r.exit_status() is None,
            r.limit() == cap,
    {
        RemoteBytes { out: Vec::new(), status: None, cap }
    }

    /// Take in a message; says whether to go on waiting.
    pub fn push(&mut self, msg: RemoteMsg) -> (r: Result<bool, KirkError>)
        ensures
            final(self).limit() == old(self).limit(),
            match msg {
                RemoteMsg::Data(data) => if old(self).limit() matches Some(cap) && old(
                    self,
                ).bytes().len() + data@.len() > cap {
                    &&& r matches Err(e)
                    &&& e@ == ErrorView::Communication("remote output exceeds size limit"@)
                    &&& final(self).bytes() == old(self).bytes()
                    &&& final(self).exit_status() == old(self).exit_status()
                } else {
                    &&& r == Ok::<bool, KirkError>(true)
                    &&& final(self).bytes() == old(self).bytes() + data@
                    &&& final(self).exit_status() == old(self).exit_status()
                },
                RemoteMsg::ExitStatus(status) => {
                    &&& r == Ok::<bool, KirkError>(true)
                    &&& final(self).bytes() == old(self).bytes()
                    &&& final(self).exit_status() == Some(status)
                },
                RemoteMsg::Close => {
                    &&& r == Ok::<bool, KirkError>(false)
                    &&& final(self).bytes() == old(self).bytes()
                    &&& final(self).exit_status() == old(self).exit_status()
                },
                RemoteMsg::Other => {
                    &&& r == Ok::<bool, KirkError>(true)
                    &&& final(self).bytes() == old(self).bytes()
                    &&& final(self).exit_status() == old(self).exit_status()
                },
            },
    {
        match msg {
            RemoteMsg::Data(mut data) => {
                match self.cap {
                    Some(cap) => {
                        let total: u128 = self.out.len() as u128 + data.len() as u128;
                        if total > cap as u128 {
                            return Err(communication("remote output exceeds size limit"));
                        }
                    },
                    None => {},
                }
                self.out.append(&mut data);
                Ok(true)
            },
            RemoteMsg::ExitStatus(status) => {
                self.status = Some(status);
                Ok(true)
            },
            RemoteMsg::Close => Ok(false),
            RemoteMsg::Other => Ok(true),
        }
    }

    /// Contents of a fetched file: the bytes, once the command succeeded.
    pub fn fetched(self) -> (r: Result<Vec<u8>, KirkError>)
        ensures
            if self.exit_status() == Some(0u32) {
                r matches Ok(v) && v@ == self.bytes()
            } else {
                r matches Err(e) && e@ == ErrorView::Communication("failed to fetch remote file"@)
            },
    {
        match self.status {
            Some(status) => if status == 0 {
                return Ok(self.out);
            },
            None => {},
        }
        Err(communication("failed to fetch remote file"))
    }

    /// Whether a ping succeeded.
    pub fn pinged(&self) -> (r: Result<(), KirkError>)
        ensures
            if self.exit_status() == Some(0u32) {
                r is Ok
            } else {
                r matches Err(e) && e@ == ErrorView::Communication("SSH ping failed"@)
            },
    {
        match self.status {
            Some(status) => if status == 0 {
                return Ok(());
            },
            None => {},
        }
        Err(communication("SSH ping failed"))
    }

    /// Text of the bytes so far.
    pub fn output(&self) -> (r: String)
        ensures
            r@ == text::lossy_text(self.bytes()),
    {
        text::lossy(self.out.as_slice())
    }
}

/// Output and status of a remote command.
#[derive(Debug)]
pub struct RemoteRun {
    collector: OutputCollector,
    status: Option<u32>,
}

impl RemoteRun {
    /// Output so far.
    pub closed spec fn collected(self) -> Seq<char> {
        self.collector.collected()
    }

    /// Last exit status so far.
    pub closed spec fn exit_status(self) -> Option<u32> {
        self.status
    }

    /// Nothing came yet.
    pub fn new() -> (r: Self)
        ensures
            r.collected() == Seq::<char>::empty(),
            r.exit_status() is None,
    {
        RemoteRun { collector: OutputCollector::new(), status: None }
    }

    /// Take in a message. Gives the text to stream, and whether to go on
    /// waiting.
    pub fn push(&mut self, msg: &RemoteMsg) -> (r: (Option<String>, bool))
        ensures
            r.1 == !(msg is Close),
            match *msg {
                RemoteMsg::Data(data) => {
                    &&& text::opt_text(r.0) == Some(text::lossy_text(data@))
                    &&& final(self).collected() == old(self).collected() + text::lossy_text(data@)
                    &&& final(self).exit_status() == old(self).exit_status()
                },
                RemoteMsg::ExitStatus(status) => {
                    &&& r.0 is None
                    &&& final(self).collected() == old(self).collected()
                    &&& final(self).exit_status() == Some(status)
                },
                _ => {
                    &&& r.0 is None
                    &&& final(self).collected() == old(self).collected()
                    &&& final(self).exit_status() == old(self).exit_status()
                },
            },
    {
        match msg {
            RemoteMsg::Data(data) => {
                let s = text::lossy(data.as_slice());
                self.collector.push(s.as_str());
                (Some(s), true)
            },
            RemoteMsg::ExitStatus(status) => {
                self.status = Some(*status);
                (None, true)
            },
            RemoteMsg::Close => (None, false),
            RemoteMsg::Other => (None, true),
        }
    }

    /// Result of the command. A kernel panic that shows in the output is an
    /// error; a command without a status that fits has the code -1.
    pub fn finish(self, command: &str, exec_time: u64) -> (r: Result<CmdResult, KirkError>)
        ensures
            if output::shows_panic(self.collected()) {
                r matches Err(e) && e@ == ErrorView::KernelPanic(
                    "kernel panic detected during command execution"@,
                )
            } else {
                &&& r matches Ok(c)
                &&& c.command@ == command@
                &&& c.returncode == match self.exit_status() {
                    Some(n) => if n <= i32::MAX {
                        n as int
                    } else {
                        -1
                    },
                    None => -1,
                }
                &&& c.stdout@ == self.collected()
                &&& c.exec_time == exec_time
            },
    {
        let (stdout, panicked) = self.collector.finish();
        if panicked {
            return Err(
                KirkError::KernelPanic(
                    text::owned("kernel panic detected during command execution"),
                ),
            );
        }
        let returncode: i32 = match self.status {
            Some(n) => if n <= 0x7fff_ffff {
                n as i32
            } else {
                -1
            },
            None => -1,
        };
        Ok(CmdResult { command: command.to_owned(), returncode, stdout, exec_time })
    }
}

/// How to authenticate.
#[derive(Debug, Clone, PartialEq, Eq)]
pub enum Authentication {
    /// With a private key, which the password, if any, decrypts.
    Key(String),
    /// With the password.
    Password,
    /// With the user name alone.
    Nothing,
}

/// SSH communication channel.
pub struct SshChannel {
    name: String,
    config: SshConfig,
    connected: bool,
    max_sessions: usize,
}

/// What a channel holds.
#[verifier::ext_equal]
pub struct SshView {
    /// Name of the channel.
    pub name: Seq<char>,
    /// Configuration.
    pub config: SshConfigView,
    /// Whether a session is open.
    pub connected: bool,
    /// Number of commands that may run at the same time.
    pub max_sessions: usize,
}

impl View for SshChannel {
    type V = SshView;

    closed spec fn view(&self) -> SshView {
        SshView {
            name: self.name@,
            config: self.config@,
            connected: self.connected,
            max_sessions: self.max_sessions,
        }
    }
}

/// Configuration that applies where no option is given and the home
/// directory is unknown.
pub open spec fn fallback_config() -> SshConfigView {
    SshConfigView {
        host: "localhost"@,
        user: "root"@,
        key_file: None,
        password: None,
        port: DEFAULT_PORT,
        reset_cmd: None,
        sudo: false,
        known_hosts: "~/.ssh/known_hosts"@,
    }
}

/// Help on each configuration option.
pub open spec fn option_help() -> Map<Seq<char>, Seq<char>> {
    map![
        "host"@ => "IP address of the host (default: localhost)"@,
        "port"@ => "TCP port of the service (default: 22)"@,
        "user"@ => "name of the user (default: root)"@,
        "password"@ => "root password"@,
        "key_file"@ => "private key location"@,
        "reset_cmd"@ => "command to reset the remote target"@,
        "sudo"@ => "use sudo to access to root shell (default: 0)"@,
        "known_hosts"@ => "path to custom known_hosts file"@,
    ]
}

impl Plugin for SshChannel {
    open spec fn plugin_name(&self) -> Seq<char> {
        self@.name
    }

    fn name(&self) -> &str {
        self.name.as_str()
    }

    fn config_help(&self) -> (r: TextMap)
        ensures
            r@ == option_help(),
    {
        let mut help = TextMap::new();
        help.insert("host", "IP address of the host (default: localhost)");
        help.insert("port", "TCP port of the service (default: 22)");
        help.insert("user", "name of the user (default: root)");
        help.insert("password", "root password");
        help.insert("key_file", "private key location");
        help.insert("reset_cmd", "command to reset the remote target");
        help.insert("sudo", "use sudo to access to root shell (default: 0)");
        help.insert("known_hosts", "path to custom known_hosts file");
        help
    }

    fn renamed(&self, name: &str) -> (r: Self)
        ensures
            r@ == (SshView {
                name: name@,
                config: self@.config,
                connected: false,
                max_sessions: DEFAULT_MAX_SESSIONS,
            }),
    {
        SshChannel {
            name: name.to_owned(),
            config: self.config.clone(),
            connected: false,
            max_sessions: DEFAULT_MAX_SESSIONS,
        }
    }
}

impl ComChannel for SshChannel {
    open spec fn is_parallel(&self) -> bool {
        true
    }

    open spec fn is_communicating(&self) -> bool {
        self@.connected
    }

    fn parallel_execution(&self) -> bool {
        true
    }

    fn active(&self) -> bool {
        self.connected
    }

    fn concurrent_handle(&self) -> Option<ChannelHandle> {
        Some(ChannelHandle { channel: self.name.clone() })
    }
}

impl SshChannel {
    /// Create an unconfigured channel, given the home directory of the user.
    pub fn new(name: &str, home: Option<&str>) -> (r: Self)
        ensures
            r@ == (SshView {
                name: name@,
                config: match config_of(Map::empty(), text::opt_str(home)) {
                    Ok(c) => c,
                    Err(_) => fallback_config(),
                },
                connected: false,
                max_sessions: DEFAULT_MAX_SESSIONS,
            }),
    {
        let config = match SshConfig::from_map(&TextMap::new(), home) {
            Ok(config) => config,
            Err(_) => SshConfig {
                host: text::owned("localhost"),
                user: text::owned("root"),
                key_file: None,
                password: None,
                port: DEFAULT_PORT,
                reset_cmd: None,
                sudo: false,
                known_hosts: text::owned("~/.ssh/known_hosts"),
            },
        };
        SshChannel {
            name: name.to_owned(),
            config,
            connected: false,
            max_sessions: DEFAULT_MAX_SESSIONS,
        }
    }

    /// Take over a configuration; an invalid one leaves the channel as it is.
    pub fn setup(&mut self, cfg: &TextMap, home: Option<&str>) -> (r: Result<(), KirkError>)
        ensures
            match config_of(cfg@, text::opt_str(home)) {
                Ok(c) => r is Ok && final(self)@ == (SshView { config: c, ..old(self)@ }),
                Err(x) => {
                    &&& r matches Err(e)
                    &&& e@ == x
                    &&& final(self)@ == old(self)@
                },
            },
    {
        match SshConfig::from_map(cfg, home) {
            Ok(config) => {
                self.config = config;
                Ok(())
            },
            Err(e) => Err(e),
        }
    }

    /// Configuration of the channel.
    pub fn config(&self) -> (r: &SshConfig)
        ensures
            r@ == self@.config,
    {
        &self.config
    }

    /// Check that a connection can be made, and say how to authenticate: the
    /// key goes before the password.
    pub fn admit_connect(&self) -> (r: Result<Authentication, KirkError>)
        ensures
            if self@.connected {
                r matches Err(e) && e@ == ErrorView::Communication(
                    "SSH client is already connected"@,
                )
            } else {
                match r {
                    Ok(Authentication::Key(path)) => self@.config.key_file == Some(path@),
                    Ok(Authentication::Password) => self@.config.key_file is None
                        && self@.config.password is Some,
                    Ok(Authentication::Nothing) => self@.config.key_file is None
                        && self@.config.password is None,
                    Err(_) => false,
                }
            },
    {
        if self.connected {
            return Err(communication("SSH client is already connected"));
        }
        match &self.config.key_file {
            Some(path) => Ok(Authentication::Key(path.clone())),
            None => match &self.config.password {
                Some(_) => Ok(Authentication::Password),
                None => Ok(Authentication::Nothing),
            },
        }
    }

    /// Take up a session, given whether authentication succeeded and how many
    /// sessions the server allows.
    pub fn connected(&mut self, authenticated: bool, max_sessions: usize) -> (r: Result<
        (),
        KirkError,
    >)
        ensures
            if authenticated {
                r is Ok && final(self)@ == (SshView { connected: true, max_sessions, ..old(self)@ })
            } else {
                &&& r matches Err(e)
                &&& e@ == ErrorView::Communication("SSH authentication failed"@)
                &&& final(self)@ == old(self)@
            },
    {
        if !authenticated {
            return Err(communication("SSH authentication failed"));
        }
        self.connected = true;
        self.max_sessions = max_sessions;
        Ok(())
    }

    /// Number of commands that may run at the same time.
    pub fn max_sessions(&self) -> (n: usize)
        ensures
            n == self@.max_sessions,
    {
        self.max_sessions
    }

    /// Give up the session. Gives the reset command to run, if there was a
    /// session and one is configured.
    pub fn disconnect(&mut self) -> (reset_cmd: Option<String>)
        ensures
            text::opt_text(reset_cmd) == if old(self)@.connected {
                old(self)@.config.reset_cmd
            } else {
                None
            },
            final(self)@ == if old(self)@.connected {
                SshView {
                    connected: false,
                    max_sessions: DEFAULT_MAX_SESSIONS,
                    ..old(self)@
                }
            } else {
                old(self)@
            },
    {
        if !self.connected {
            return None;
        }
        self.connected = false;
        self.max_sessions = DEFAULT_MAX_SESSIONS;
        text::copy_opt(&self.config.reset_cmd)
    }

    /// Check that a ping can be sent.
    pub fn admit_ping(&self) -> (r: Result<(), KirkError>)
        ensures
            if self@.connected {
                r is Ok
            } else {
                r matches Err(e) && e@ == ErrorView::Communication("SSH client is not running"@)
            },
    {
        if !self.connected {
            return Err(communication("SSH client is not running"));
        }
        Ok(())
    }

    /// Check that a command can run, and build its remote command line.
    pub fn admit_command(&self, command: &str, cwd: Option<&str>, env: Option<&TextMap>) -> (r:
        Result<String, KirkError>)
        ensures
            if command@.len() == 0 {
                r matches Err(e) && e@ == ErrorView::Communication("command is empty"@)
            } else if !self@.connected {
                r matches Err(e) && e@ == ErrorView::Communication("SSH connection is not present"@)
            } else {
                match remote_command(
                    command@,
                    text::opt_str(cwd),
                    env_entries(env),
                    self@.config.sudo,
                ) {
                    Ok(line) => r matches Ok(s) && s@ == line,
                    Err(x) => r matches Err(e) && e@ == x,
                }
            },
    {
        if command.is_empty() {
            return Err(communication("command is empty"));
        }
        if !self.connected {
            return Err(communication("SSH connection is not present"));
        }
        build_remote_command(command, cwd, env, self.config.sudo)
    }

    /// Check that a file can be fetched, and build the command line for it.
    pub fn admit_fetch(&self, target_path: &str) -> (r: Result<String, KirkError>)
        ensures
            if target_path@.len() == 0 {
                r matches Err(e) && e@ == ErrorView::Communication("target path is empty"@)
            } else if !self@.connected {
                r matches Err(e) && e@ == ErrorView::Communication("SSH connection is not present"@)
            } else {
                r matches Ok(s) && s@ == "cat -- "@ + words::single_quoted(target_path@)
            },
    {
        if target_path.is_empty() {
            return Err(communication("target path is empty"));
        }
        if !self.connected {
            return Err(communication("SSH connection is not present"));
        }
        let path = quote_sh(target_path);
        Ok(text::cat2("cat -- ", path.as_str()))
    }
}

/// Text that exports a variable in front of a command.
pub open spec fn export_text(name: Seq<char>, value: Seq<char>) -> Seq<char> {
    "export "@ + name + "="@ + words::single_quoted(value) + " && "@
}

/// A directory is changed to in front of everything else, whatever is
/// exported; where none is given, or an empty one, the line has no such part.
pub proof fn directory_comes_first(
    cmd: Seq<char>,
    dir: Seq<char>,
    env: Seq<EntryView>,
)
    requires
        bad_name(env) is None,
    ensures
        dir.len() > 0 ==> remote_command(cmd, Some(dir), env, false)->Ok_0 == "cd "@
            + words::single_quoted(dir) + " && "@ + remote_command(cmd, None, env, false)->Ok_0,
        dir.len() == 0 ==> remote_command(cmd, Some(dir), env, false) == remote_command(
            cmd,
            None,
            env,
            false,
        ),
        remote_command(cmd, Some(dir), env, false) is Ok,
        remote_command(cmd, None, env, false) is Ok,
{
    let place = "cd "@ + words::single_quoted(dir) + " && "@;
    assert(place + exports(env) + cmd =~= place + (Seq::<char>::empty() + exports(env) + cmd));
}

/// One variable more is one export more, directly in front of the command,
/// with or without a directory; without variables nothing stands there.
pub proof fn variables_are_exported_in_order(
    cmd: Seq<char>,
    cwd: Option<Seq<char>>,
    env: Seq<EntryView>,
    entry: EntryView,
)
    requires
        bad_name(env) is None,
        words::is_variable_name(entry.0),
    ensures
        remote_command(cmd, cwd, env.push(entry), false) == remote_command(
            export_text(entry.0, entry.1) + cmd,
            cwd,
            env,
            false,
        ),
        remote_command(cmd, None, Seq::empty(), false) == Ok::<Seq<char>, ErrorView>(cmd),
{
    let all = env.push(entry);
    assert(all.drop_last() =~= env);
    assert(exports(all) =~= exports(env) + export_text(entry.0, entry.1));
    let with = remote_script(cmd, cwd, all);
    let pushed = remote_script(export_text(entry.0, entry.1) + cmd, cwd, env);
    assert(with =~= pushed);
    assert(remote_script(cmd, None, Seq::empty()) =~= cmd);
    assert(bad_name(Seq::<EntryView>::empty()) is None);
}

/// Every entry of the environment is exported in the line, with its value
/// quoted, in front of the command that ends the line; a directory stands in
/// front of all exports.
pub proof fn every_variable_is_exported(
    cmd: Seq<char>,
    cwd: Option<Seq<char>>,
    env: Seq<EntryView>,
    k: int,
)
    requires
        bad_name(env) is None,
        0 <= k < env.len(),
    ensures
        ({
            let line = remote_command(cmd, cwd, env, false)->Ok_0;
            &&& remote_command(cmd, cwd, env, false) is Ok
            &&& exists|left: Seq<char>, right: Seq<char>|
                line == #[trigger] (left + export_text(env[k].0, env[k].1) + right) && cmd.is_suffix_of(
                    right,
                ) && (cwd matches Some(dir) ==> dir.len() > 0 ==> ("cd "@ + words::single_quoted(
                    dir,
                ) + " && "@).is_prefix_of(left))
        }),
    decreases env.len(),
{
    let front = env.drop_last();
    assert(env =~= front.push(env.last()));
    let text = export_text(env[k].0, env[k].1);
    let place = remote_script(Seq::empty(), cwd, Seq::empty());
    assert(exports(env) =~= exports(front) + export_text(env.last().0, env.last().1));
    let line = remote_script(cmd, cwd, env);
    exports_hold(env, k);
    let (a, b) = choose|a: Seq<char>, b: Seq<char>| exports(env) == #[trigger] (a + text + b);
    let left = place + a;
    let right = b + cmd;
    assert(exports(Seq::<EntryView>::empty()) =~= Seq::<char>::empty());
    assert(line =~= left + text + right);
    assert(cmd =~= right.subrange(right.len() - cmd.len(), right.len() as int));
    if let Some(dir) = cwd {
        if dir.len() > 0 {
            let cd = "cd "@ + words::single_quoted(dir) + " && "@;
            assert(place =~= cd);
            assert(cd =~= left.subrange(0, cd.len() as int));
        }
    }
}

proof fn exports_hold(env: Seq<EntryView>, k: int)
    requires
        0 <= k < env.len(),
    ensures
        exists|a: Seq<char>, b: Seq<char>|
            exports(env) == #[trigger] (a + export_text(env[k].0, env[k].1) + b),
    decreases env.len(),
{
    let front = env.drop_last();
    let last = export_text(env.last().0, env.last().1);
    assert(exports(env) =~= exports(front) + last);
    if k == env.len() - 1 {
        assert(exports(env) =~= exports(front) + last + Seq::<char>::empty());
    } else {
        exports_hold(front, k);
        let text = export_text(env[k].0, env[k].1);
        let (a, b) = choose|a: Seq<char>, b: Seq<char>| exports(front) == #[trigger] (a + text + b);
        assert(exports(env) =~= a + text + (b + last));
    }
}

/// A line is built exactly where every variable has the name of a shell
/// variable; the error names one that has not, and never its value.
pub proof fn bad_names_are_refused(
    cmd: Seq<char>,
    cwd: Option<Seq<char>>,
    env: Seq<EntryView>,
    sudo: bool,
)
    ensures
        remote_command(cmd, cwd, env, sudo) is Ok <==> forall|i: int|
            0 <= i < env.len() ==> words::is_variable_name((#[trigger] env[i]).0),
        remote_command(cmd, cwd, env, sudo) matches Err(e) ==> exists|i: int|
            0 <= i < env.len() && !words::is_variable_name((#[trigger] env[i]).0) && e
                == ErrorView::Communication("invalid environment variable name: "@ + env[i].0),
    decreases env.len(),
{
    if env.len() > 0 {
        let front = env.drop_last();
        bad_names_are_refused(cmd, cwd, front, sudo);
        assert(forall|i: int| 0 <= i < front.len() ==> env[i] == #[trigger] front[i]);
        if bad_name(front) is Some {
            let i = choose|i: int|
                0 <= i < front.len() && !words::is_variable_name((#[trigger] front[i]).0)
                    && remote_command(cmd, cwd, front, sudo)->Err_0 == ErrorView::Communication(
                    "invalid environment variable name: "@ + front[i].0,
                );
            assert(env[i] == front[i]);
        } else {
            assert(env[env.len() - 1] == env.last());
            assert forall|i: int| 0 <= i < front.len() implies words::is_variable_name(
                (#[trigger] env[i]).0,
            ) by {
                assert(words::is_variable_name(front[i].0));
            }
        }
    }
}

/// Every option of the channel stands under its own name: what is given there
/// applies, without the white space around it, and a blank option is none.
pub proof fn options_apply(cfg: Map<Seq<char>, Seq<char>>, home: Option<Seq<char>>)
    requires
        config_of(cfg, home) is Ok,
    ensures
        ({
            let c = config_of(cfg, home)->Ok_0;
            let given = |key: Seq<char>| cfg.dom().contains(key) && text::trimmed(cfg[key]).len()
                > 0;
            let value = |key: Seq<char>| text::trimmed(cfg[key]);
            &&& given("host"@) ==> c.host == value("host"@)
            &&& !given("host"@) ==> c.host == "localhost"@
            &&& given("user"@) ==> c.user == value("user"@)
            &&& !given("user"@) ==> c.user == "root"@
            &&& given("key_file"@) ==> c.key_file == Some(value("key_file"@))
            &&& !given("key_file"@) ==> c.key_file is None
            &&& given("password"@) ==> c.password == Some(value("password"@))
            &&& !given("password"@) ==> c.password is None
            &&& given("reset_cmd"@) ==> c.reset_cmd == Some(value("reset_cmd"@))
            &&& !given("reset_cmd"@) ==> c.reset_cmd is None
            &&& !given("port"@) ==> c.port == 22
            &&& !given("sudo"@) ==> !c.sudo
            &&& c.port >= 1
            &&& c.known_hosts != "/dev/null"@ || home is Some
        }),
{
}

/// A port is read as it is written, from 1 to 65535, and no other number is
/// one; `sudo` is 0 or 1.
pub proof fn numbers_are_read(n: nat)
    requires
        n <= i64::MAX,
    ensures
        1 <= n <= 65535 ==> port_of(Some(text::decimal_text(n))) == Some(n as u16),
        n == 0 || n > 65535 ==> port_of(Some(text::decimal_text(n))) is None,
        n == 0 ==> sudo_of(Some(text::decimal_text(n))) == Some(false),
        n == 1 ==> sudo_of(Some(text::decimal_text(n))) == Some(true),
        n > 1 ==> sudo_of(Some(text::decimal_text(n))) is None,
{
    let s = text::decimal_text(n);
    text::decimal_text_is_digits(n);
    assert(text::is_digit(s[0]) && text::is_digit(s[s.len() - 1]));
    let none = Seq::<char>::empty();
    text::trimming_leaves_the_core(none, s, none);
    assert(none + s + none =~= s);
}

/// A tilde alone or in front of a slash stands for the home directory; any
/// other path is left as it is. Verification is never turned off.
pub proof fn known_hosts_are_expanded(path: Seq<char>, home: Seq<char>)
    ensures
        known_hosts_of(seq!['~', '/'] + path, Some(home)) == Ok::<Seq<char>, ErrorView>(
            home + seq!['/'] + path,
        ),
        known_hosts_of(seq!['~'], Some(home)) == Ok::<Seq<char>, ErrorView>(home),
        known_hosts_of(seq!['~', '/'] + path, None) is Err,
        path.len() > 0 && path[0] != '/' ==> known_hosts_of(seq!['~'] + path, Some(home)) is Err,
        known_hosts_of("/dev/null"@, Some(home)) is Err,
        path != "/dev/null"@ && (path.len() == 0 || path[0] != '~') ==> known_hosts_of(
            path,
            Some(home),
        ) == Ok::<Seq<char>, ErrorView>(path),
{
    reveal_strlit("/dev/null");
    let a = seq!['~', '/'] + path;
    assert(a.drop_first() =~= seq!['/'] + path);
    assert(home + (seq!['/'] + path) =~= home + seq!['/'] + path);
    assert(a[0] == '~' && a[1] == '/');
    assert("/dev/null"@[0] == '/');
    let b = seq!['~'];
    assert(home + b.drop_first() =~= home);
    let c = seq!['~'] + path;
    assert(c[0] == '~');
    if path.len() > 0 {
        assert(c[1] == path[0]);
    }
}

/// The number of sessions that the server configuration gives is read from the
/// first line that has one, in either spelling, with white space around it.
pub proof fn session_lines_are_read(
    indent: Seq<char>,
    n: nat,
    after: Seq<char>,
    rest: Seq<Seq<char>>,
    line: Seq<char>,
)
    requires
        text::all_space(indent),
        text::all_space(after),
        n <= usize::MAX,
    ensures
        sessions_in(indent + ("MaxSessions "@ + text::decimal_text(n)) + after) == Some(n),
        sessions_in(indent + ("maxsessions "@ + text::decimal_text(n)) + after) == Some(n),
        first_sessions(
            seq![indent + ("MaxSessions "@ + text::decimal_text(n)) + after] + rest,
        ) == Some(n),
        sessions_in(line) is None ==> first_sessions(seq![line] + rest) == first_sessions(rest),
        sessions_in(line) is Some ==> first_sessions(seq![line] + rest) == sessions_in(line),
        first_sessions(Seq::empty()) is None,
{
    let d = text::decimal_text(n);
    text::decimal_text_is_digits(n);
    text::decimal_round_trip(n, usize::MAX as nat);
    reveal_strlit("MaxSessions ");
    reveal_strlit("maxsessions ");
    let big = "MaxSessions "@ + d;
    let small = "maxsessions "@ + d;
    assert(text::is_digit(d[d.len() - 1]));
    assert(big.last() == d.last() && small.last() == d.last());
    text::trimming_leaves_the_core(indent, big, after);
    text::trimming_leaves_the_core(indent, small, after);
    assert("MaxSessions "@ =~= big.subrange(0, 12));
    assert("maxsessions "@ =~= small.subrange(0, 12));
    assert(big.skip(12) =~= d);
    assert(small.skip(12) =~= d);
    assert(small[0] != "MaxSessions "@[0]);
    digits_are_a_word(d);
    let lines = seq![indent + big + after] + rest;
    assert(lines[0] == indent + big + after);
    let others = seq![line] + rest;
    assert(others.drop_first() =~= rest);
}

proof fn digits_are_a_word(d: Seq<char>)
    requires
        text::all_digits(d),
    ensures
        text::blank_words(d) == seq![d],
    decreases d.len(),
{
    assert(text::is_digit(d[d.len() - 1]));
    if d.len() == 1 {
        assert(text::blank_words(d.drop_last()) =~= Seq::<Seq<char>>::empty());
        assert(seq![d[0]] =~= d);
        assert(Seq::<Seq<char>>::empty().push(d) =~= seq![d]);
    } else {
        let front = d.drop_last();
        assert forall|i: int| 0 <= i < front.len() implies text::is_digit(#[trigger] front[i]) by {
            assert(front[i] == d[i]);
        }
        digits_are_a_word(front);
        assert(text::is_digit(d[d.len() - 2]));
        assert(front.push(d.last()) =~= d);
        assert(seq![front].drop_last().push(front.push(d.last())) =~= seq![d]);
    }
}

/// The server is asked for how many sessions it allows: the first answer with
/// a number counts, then the second, and without one ten are assumed. At least
/// one session is used.
pub proof fn session_answers_count(first: Option<Seq<char>>, second: Option<Seq<char>>)
    ensures
        limit_of(first, second) >= 1,
        probed(first) matches Some(n) ==> n > 0 ==> limit_of(first, second) == n,
        probed(first) is None ==> (probed(second) matches Some(n) ==> n > 0 ==> limit_of(
            first,
            second,
        ) == n),
        probed(first) is None && probed(second) is None ==> limit_of(first, second) == 10,
{
}

/// Whether commands run as root shows, and nothing else changes with it.
pub proof fn sudo_is_shown(c: SshConfigView)
    ensures
        ({
            let before = "SshConfig { host: "@ + text::quoted_text(c.host) + ", user: "@
                + text::quoted_text(c.user) + ", key_file: "@ + quoted_option(c.key_file)
                + ", password: \"<redacted>\", port: "@ + text::decimal_text(c.port as nat)
                + ", reset_cmd: "@ + quoted_option(c.reset_cmd) + ", sudo: "@;
            let after = ", known_hosts: "@ + text::quoted_text(c.known_hosts) + " }"@;
            &&& shown(SshConfigView { sudo: true, ..c }) == before + "true"@ + after
            &&& shown(SshConfigView { sudo: false, ..c }) == before + "false"@ + after
        }),
{
    let before = "SshConfig { host: "@ + text::quoted_text(c.host) + ", user: "@
        + text::quoted_text(c.user) + ", key_file: "@ + quoted_option(c.key_file)
        + ", password: \"<redacted>\", port: "@ + text::decimal_text(c.port as nat)
        + ", reset_cmd: "@ + quoted_option(c.reset_cmd) + ", sudo: "@;
    let after = ", known_hosts: "@ + text::quoted_text(c.known_hosts) + " }"@;
    assert(shown(SshConfigView { sudo: true, ..c }) =~= before + "true"@ + after);
    assert(shown(SshConfigView { sudo: false, ..c }) =~= before + "false"@ + after);
}

} // verus!
