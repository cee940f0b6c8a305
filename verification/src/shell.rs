//! Shell communication channel: commands run on the local host.
//!
//! No shell is ever involved: a command is split into words, which are the
//! program and its arguments. Commands that rely on shell syntax are refused
//! instead of silently doing something else.

use crate::com::ChannelHandle;
use crate::com::CmdResult;
use crate::com::ComChannel;
use crate::com::Plugin;
use crate::errors::ErrorView;
use crate::errors::KirkError;
use crate::output;
use crate::output::ByteCollector;
use crate::output::OutputCollector;
use crate::text;
use crate::textmap::TextMap;
use crate::words;
use crate::words::LoneBackslash;
use crate::words::SplitError;
use crate::words::SplitRules;
use vstd::prelude::*;
use vstd::string::*;

verus! {

/// Cap for combined stdout and stderr bytes kept per command.
pub const MAX_OUTPUT_BYTES: usize = 8388608;

/// Cap for bytes of a fetched file.
pub const MAX_FETCH_BYTES: usize = 67108864;

/// How a command is split.
pub open spec fn argv_rules() -> SplitRules {
    SplitRules { lone_backslash: LoneBackslash::Kept, refuse_syntax: true }
}

/// Words of a command, or the error it gives.
pub open spec fn argv_of(command: Seq<char>) -> Result<Seq<Seq<char>>, ErrorView> {
    match words::split_line(command, argv_rules()) {
        Err(SplitError::Syntax) => Err(
            ErrorView::Communication("shell syntax is not supported; pass plain argv words"@),
        ),
        Err(SplitError::Unclosed) => Err(ErrorView::Communication("unclosed quote in command"@)),
        Ok(argv) => if argv.len() == 0 {
            Err(ErrorView::Communication("command is empty"@))
        } else {
            Ok(argv)
        },
    }
}

/// Split `command` into the program and its arguments.
pub fn split_argv(command: &str) -> (r: Result<Vec<String>, KirkError>)
    ensures
        match argv_of(command@) {
            Ok(argv) => r matches Ok(v) && text::texts(v@) == argv,
            Err(x) => r matches Err(e) && e@ == x,
        },
{
    let rules = SplitRules { lone_backslash: LoneBackslash::Kept, refuse_syntax: true };
    match words::split_words(command, rules) {
        Err(SplitError::Syntax) => Err(
            KirkError::Communication(
                text::owned("shell syntax is not supported; pass plain argv words"),
            ),
        ),
        Err(SplitError::Unclosed) => Err(
            KirkError::Communication(text::owned("unclosed quote in command")),
        ),
        Ok(argv) => {
            assert(text::texts(argv@).len() == argv@.len());
            if argv.len() == 0 {
                Err(KirkError::Communication(text::owned("command is empty")))
            } else {
                Ok(argv)
            }
        },
    }
}

/// A program and arguments that were quoted reach the process as they were,
/// whatever characters they hold.
pub proof fn quoted_argv_is_kept(argv: Seq<Seq<char>>)
    requires
        argv.len() > 0,
    ensures
        argv_of(words::quoted_line(argv)) == Ok::<Seq<Seq<char>>, ErrorView>(argv),
{
    words::quoted_line_splits(argv, argv_rules());
}

/// Return code of a process: its exit code, or the negative number of the
/// signal that ended it.
pub fn exit_code(code: Option<i32>, signal: Option<i32>) -> (r: i32)
    requires
        signal matches Some(s) ==> s > i32::MIN,
    ensures
        r == match (code, signal) {
            (Some(c), _) => c as int,
            (None, Some(s)) => -s,
            (None, None) => -1,
        },
{
    match code {
        Some(c) => c,
        None => match signal {
            Some(s) => -s,
            None => -1,
        },
    }
}

/// Output of a running command: stdout as text, stderr as bytes, and the
/// bytes of both that came so far. Past the cap nothing more is kept.
#[derive(Debug)]
pub struct CommandOutput {
    stdout: OutputCollector,
    stderr: ByteCollector,
    used: usize,
    over_cap: bool,
}

/// What the output of a command holds.
#[verifier::ext_equal]
pub struct OutputView {
    /// Text of stdout.
    pub stdout: Seq<char>,
    /// Bytes of stderr.
    pub stderr: Seq<u8>,
    /// Bytes that came on both.
    pub used: nat,
    /// Whether the cap was passed.
    pub over_cap: bool,
}

impl View for CommandOutput {
    type V = OutputView;

    closed spec fn view(&self) -> OutputView {
        OutputView {
            stdout: self.stdout.collected(),
            stderr: self.stderr.collected(),
            used: self.used as nat,
            over_cap: self.over_cap,
        }
    }
}

/// Number of bytes after `n` more.
pub open spec fn bytes_after(used: nat, n: nat) -> nat {
    if used + n > usize::MAX {
        usize::MAX as nat
    } else {
        used + n
    }
}

/// Output after bytes that are past the cap.
pub open spec fn passed_cap(o: OutputView, n: nat) -> OutputView {
    OutputView { used: bytes_after(o.used, n), over_cap: true, ..o }
}

impl CommandOutput {
    /// Output of a command that has just started.
    pub fn new() -> (r: Self)
        ensures
            r@ == (OutputView {
                stdout: Seq::empty(),
                stderr: Seq::empty(),
                used: 0,
                over_cap: false,
            }),
    {
        CommandOutput {
            stdout: OutputCollector::new(),
            stderr: ByteCollector::new(),
            used: 0,
            over_cap: false,
        }
    }

    /// Take in bytes of stdout. Gives the text to stream, or nothing where
    /// the cap is passed and the command is to be killed.
    pub fn push_stdout(&mut self, chunk: &[u8]) -> (r: Option<String>)
        ensures
            if bytes_after(old(self)@.used, chunk@.len()) > MAX_OUTPUT_BYTES {
                r is None && final(self)@ == passed_cap(old(self)@, chunk@.len())
            } else {
                &&& r matches Some(s)
                &&& s@ == text::lossy_text(chunk@)
                &&& final(self)@ == (OutputView {
                    stdout: old(self)@.stdout + text::lossy_text(chunk@),
                    used: bytes_after(old(self)@.used, chunk@.len()),
                    ..old(self)@
                })
            },
    {
        self.used = self.used.saturating_add(chunk.len());
        if self.used > MAX_OUTPUT_BYTES {
            self.over_cap = true;
            return None;
        }
        let s = text::lossy(chunk);
        self.stdout.push(s.as_str());
        Some(s)
    }

    /// Take in bytes of stderr. Says whether they were kept; where not, the
    /// cap is passed and the command is to be killed.
    pub fn push_stderr(&mut self, chunk: &[u8]) -> (kept: bool)
        ensures
            kept == (bytes_after(old(self)@.used, chunk@.len()) <= MAX_OUTPUT_BYTES),
            final(self)@ == if kept {
                OutputView {
                    stderr: old(self)@.stderr + chunk@,
                    used: bytes_after(old(self)@.used, chunk@.len()),
                    ..old(self)@
                }
            } else {
                passed_cap(old(self)@, chunk@.len())
            },
    {
        self.used = self.used.saturating_add(chunk.len());
        if self.used > MAX_OUTPUT_BYTES {
            self.over_cap = true;
            return false;
        }
        self.stderr.push(chunk);
        true
    }

    /// Result of the command: stdout followed by stderr. A kernel panic that
    /// shows in either is an error, and so is output past the cap. Gives the
    /// text of stderr too, which is still to be streamed.
    pub fn finish(self, command: &str, returncode: i32, exec_time: u64) -> (r: Result<
        (CmdResult, String),
        KirkError,
    >)
        ensures
            ({
                let o = self@;
                if output::shows_panic(o.stdout) || output::bytes_show_panic(o.stderr) {
                    r matches Err(e) && e@ == ErrorView::KernelPanic(
                        "kernel panic detected in command output"@,
                    )
                } else if o.over_cap {
                    r matches Err(e) && e@ == ErrorView::Communication(
                        "command output exceeds 8388608 byte cap"@,
                    )
                } else {
                    &&& r matches Ok((c, stderr))
                    &&& stderr@ == text::lossy_text(o.stderr)
                    &&& c.command@ == command@
                    &&& c.returncode == returncode
                    &&& c.stdout@ == o.stdout + text::lossy_text(o.stderr)
                    &&& c.exec_time == exec_time
                }
            }),
    {
        if self.stdout.panicked() || self.stderr.panicked() {
            return Err(
                KirkError::KernelPanic(text::owned("kernel panic detected in command output")),
            );
        }
        if self.over_cap {
            return Err(
                KirkError::Communication(text::owned("command output exceeds 8388608 byte cap")),
            );
        }
        let stderr = text::lossy(self.stderr.bytes());
        let (mut stdout, _) = self.stdout.finish();
        stdout.append(stderr.as_str());
        Ok((CmdResult { command: command.to_owned(), returncode, stdout, exec_time }, stderr))
    }
}

/// How the process of a command is started.
#[derive(Debug)]
pub struct Spawn {
    /// Program to run.
    pub program: String,
    /// Its arguments.
    pub args: Vec<String>,
    /// Directory in which it runs, where it is not that of the runner.
    pub cwd: Option<String>,
    /// Environment that replaces the one of the runner, if any.
    pub env: Option<TextMap>,
}

/// Shell communication channel.
#[derive(Debug)]
pub struct ShellChannel {
    name: String,
    active: bool,
    pids: Vec<u32>,
}

/// What a channel holds.
#[verifier::ext_equal]
pub struct ShellView {
    /// Name of the channel.
    pub name: Seq<char>,
    /// Whether communication is active.
    pub active: bool,
    /// Processes that run, in the order they were started.
    pub pids: Seq<u32>,
}

impl View for ShellChannel {
    type V = ShellView;

    closed spec fn view(&self) -> ShellView {
        ShellView { name: self.name@, active: self.active, pids: self.pids@ }
    }
}

impl Plugin for ShellChannel {
    open spec fn plugin_name(&self) -> Seq<char> {
        self@.name
    }

    fn name(&self) -> &str {
        self.name.as_str()
    }

    fn config_help(&self) -> (r: TextMap)
        ensures
            r@ == Map::<Seq<char>, Seq<char>>::empty(),
    {
        TextMap::new()
    }

    fn renamed(&self, name: &str) -> (r: Self)
        ensures
            r@ == (ShellView { name: name@, active: false, pids: Seq::empty() }),
    {
        ShellChannel { name: name.to_owned(), active: false, pids: Vec::new() }
    }
}

impl ComChannel for ShellChannel {
    open spec fn is_parallel(&self) -> bool {
        true
    }

    open spec fn is_communicating(&self) -> bool {
        self@.active
    }

    fn parallel_execution(&self) -> bool {
        true
    }

    fn active(&self) -> bool {
        self.active
    }

    fn concurrent_handle(&self) -> Option<ChannelHandle> {
        Some(ChannelHandle { channel: self.name.clone() })
    }
}

fn communication(message: &str) -> (e: KirkError)
    ensures
        e@ == ErrorView::Communication(message@),
{
    KirkError::Communication(text::owned(message))
}

impl ShellChannel {
    /// Build an inactive channel named `shell`.
    pub fn new() -> (r: Self)
        ensures
            r@ == (ShellView { name: "shell"@, active: false, pids: Seq::empty() }),
    {
        ShellChannel { name: text::owned("shell"), active: false, pids: Vec::new() }
    }

    /// Accept any configuration.
    pub fn setup(&mut self, _cfg: &TextMap) -> (r: Result<(), KirkError>)
        ensures
            r is Ok,
            final(self)@ == old(self)@,
    {
        Ok(())
    }

    /// Start communication, unless it is active already.
    pub fn communicate(&mut self) -> (r: Result<(), KirkError>)
        ensures
            final(self)@ == (ShellView { active: true, ..old(self)@ }),
            match r {
                Ok(_) => !old(self)@.active,
                Err(e) => old(self)@.active && e@ == ErrorView::Communication("Shell is running"@),
            },
    {
        if self.active {
            return Err(communication("Shell is running"));
        }
        self.active = true;
        Ok(())
    }

    /// Processes to kill before communication stops; none where it is not
    /// active. They are tracked no longer.
    pub fn take_processes(&mut self) -> (pids: Vec<u32>)
        ensures
            old(self)@.active ==> pids@ == old(self)@.pids && final(self)@ == (ShellView {
                pids: Seq::empty(),
                ..old(self)@
            }),
            !old(self)@.active ==> pids@.len() == 0 && final(self)@ == old(self)@,
    {
        let mut pids: Vec<u32> = Vec::new();
        if self.active {
            std::mem::swap(&mut pids, &mut self.pids);
        }
        pids
    }

    /// Communication has stopped.
    pub fn stopped(&mut self)
        ensures
            final(self)@ == (ShellView { active: false, ..old(self)@ }),
    {
        self.active = false;
    }

    /// Decide whether a command can run, and how its process is started. An
    /// environment that is given and not empty replaces the one of the runner.
    pub fn admit_command(
        &self,
        command: &str,
        cwd: Option<&str>,
        env: Option<&TextMap>,
    ) -> (r: Result<Spawn, KirkError>)
        ensures
            if !self@.active {
                r matches Err(e) && e@ == ErrorView::Communication("Shell is not running"@)
            } else {
                match argv_of(command@) {
                    Ok(argv) => {
                        &&& r matches Ok(s)
                        &&& seq![s.program@] + text::texts(s.args@) == argv
                        &&& text::opt_text(s.cwd) == text::opt_str(cwd)
                        &&& match env {
                            Some(vars) => if vars@.dom().is_empty() {
                                s.env is None
                            } else {
                                s.env matches Some(m) && m@ == vars@
                            },
                            None => s.env is None,
                        }
                    },
                    Err(x) => r matches Err(e) && e@ == x,
                }
            },
    {
        if !self.active {
            return Err(communication("Shell is not running"));
        }
        match split_argv(command) {
            Err(e) => Err(e),
            Ok(argv) => {
                let ghost words = text::texts(argv@);
                assert(words.len() == argv@.len());
                let mut argv = argv;
                let program = argv.remove(0);
                assert(seq![program@] + text::texts(argv@) =~= words);
                let env = match env {
                    Some(vars) => {
                        if vars.is_empty() {
                            None
                        } else {
                            Some(vars.clone())
                        }
                    },
                    None => None,
                };
                let cwd = match cwd {
                    Some(dir) => Some(dir.to_owned()),
                    None => None,
                };
                Ok(Spawn { program, args: argv, cwd, env })
            },
        }
    }

    /// Remember a process that was started.
    pub fn track(&mut self, pid: u32)
        ensures
            final(self)@ == (ShellView { pids: old(self)@.pids.push(pid), ..old(self)@ }),
    {
        self.pids.push(pid);
    }

    /// Forget a process that has ended.
    pub fn untrack(&mut self, pid: u32)
        ensures
            final(self)@ == (ShellView {
                pids: old(self)@.pids.filter(|p: u32| p != pid),
                ..old(self)@
            }),
    {
        let ghost start = self.pids@;
        let ghost keep = |p: u32| p != pid;
        let mut left: Vec<u32> = Vec::new();
        let mut i: usize = 0;
        proof {
            reveal(Seq::filter);
            assert(start.take(0).filter(keep) =~= Seq::<u32>::empty());
        }
        while i < self.pids.len()
            invariant
                i <= self.pids@.len(),
                self.pids@ == start,
                self@ == old(self)@,
                keep == |p: u32| p != pid,
                left@ == start.take(i as int).filter(keep),
            decreases self.pids@.len() - i,
        {
            proof {
                reveal(Seq::filter);
                assert(start.take(i + 1).drop_last() =~= start.take(i as int));
                assert(start.take(i + 1).last() == start[i as int]);
            }
            if self.pids[i] != pid {
                left.push(self.pids[i]);
            }
            i = i + 1;
        }
        assert(start.take(start.len() as int) =~= start);
        self.pids = left;
    }

    /// Execution time that a ping reports, from the result of its command.
    pub fn ping_time(result: &Option<CmdResult>) -> (r: Result<u64, KirkError>)
        ensures
            match *result {
                Some(c) => r == Ok::<u64, KirkError>(c.exec_time),
                None => r matches Err(e) && e@ == ErrorView::Communication(
                    "'test' command failed in shell"@,
                ),
            },
    {
        match result {
            Some(c) => Ok(c.exec_time),
            None => Err(communication("'test' command failed in shell")),
        }
    }

    /// Check that a file can be fetched, given whether it exists.
    pub fn admit_fetch(&self, target_path: &str, is_file: bool) -> (r: Result<(), KirkError>)
        ensures
            if target_path@.len() == 0 {
                r matches Err(e) && e@ == ErrorView::Communication("target path is empty"@)
            } else if !is_file {
                r matches Err(e) && e@ == ErrorView::Communication(
                    "'"@ + target_path@ + "' file doesn't exist"@,
                )
            } else if !self@.active {
                r matches Err(e) && e@ == ErrorView::Communication("Shell is not running"@)
            } else {
                r is Ok
            },
    {
        if target_path.is_empty() {
            return Err(communication("target path is empty"));
        }
        if !is_file {
            return Err(
                KirkError::Communication(text::cat3("'", target_path, "' file doesn't exist")),
            );
        }
        if !self.active {
            return Err(communication("Shell is not running"));
        }
        Ok(())
    }
}

/// Check the size of a file against the cap for fetched files.
pub fn check_fetch_size(path: &str, size: u64) -> (r: Result<(), KirkError>)
    ensures
        if size > MAX_FETCH_BYTES {
            r matches Err(e) && e@ == ErrorView::Communication(
                "file '"@ + path@ + "' exceeds 67108864 byte fetch cap"@,
            )
        } else {
            r is Ok
        },
{
    if size > MAX_FETCH_BYTES as u64 {
        return Err(
            KirkError::Communication(
                text::cat3("file '", path, "' exceeds 67108864 byte fetch cap"),
            ),
        );
    }
    Ok(())
}

/// Plain words are the argument vector that they are written as; a command
/// without words, with an open quote or with shell syntax is refused.
pub proof fn plain_commands_are_split(argv: Seq<Seq<char>>)
    requires
        argv.len() > 0,
        forall|i: int, k: int|
            0 <= i < argv.len() && 0 <= k < argv[i].len() ==> words::stands_for_itself(
                #[trigger] argv[i][k],
                argv_rules(),
            ),
        forall|i: int| 0 <= i < argv.len() ==> (#[trigger] argv[i]).len() > 0,
    ensures
        argv_of(text::joined(argv, " "@)) == Ok::<Seq<Seq<char>>, ErrorView>(argv),
{
    words::plain_words_split(argv, argv_rules());
}

/// Shell syntax and open quotes are refused, each with its message, and so is
/// an empty command.
pub proof fn bad_commands_are_refused(program: Seq<char>, c: char, rest: Seq<char>)
    requires
        forall|i: int|
            0 <= i < program.len() ==> words::stands_for_itself(
                #[trigger] program[i],
                argv_rules(),
            ),
    ensures
        c == '|' || c == ';' || c == '`' || c == '>' || c == '<' || c == '&' || c == '(' || c == ')'
            ==> argv_of(program + (seq![c] + rest)) == Err::<Seq<Seq<char>>, ErrorView>(
            ErrorView::Communication("shell syntax is not supported; pass plain argv words"@),
        ),
        !rest.contains('\'') ==> argv_of(seq!['\''] + rest) == Err::<Seq<Seq<char>>, ErrorView>(
            ErrorView::Communication("unclosed quote in command"@),
        ),
        argv_of(Seq::empty()) == Err::<Seq<Seq<char>>, ErrorView>(
            ErrorView::Communication("command is empty"@),
        ),
{
    if c == '|' || c == ';' || c == '`' || c == '>' || c == '<' || c == '&' || c == '(' || c
        == ')' {
        words::shell_syntax_is_refused(program, c, rest, argv_rules());
    }
    if !rest.contains('\'') {
        words::open_quotes_are_refused(rest, words::line_start(), argv_rules());
    }
    words::plain_words_split(Seq::empty(), argv_rules());
    assert(text::joined(Seq::empty(), " "@) =~= Seq::<char>::empty());
}

/// Output past the cap is counted and marked, and what was collected stays.
pub proof fn output_past_the_cap_is_marked(o: OutputView, n: nat)
    ensures
        passed_cap(o, n).over_cap,
        passed_cap(o, n).stdout == o.stdout,
        passed_cap(o, n).stderr == o.stderr,
        o.used + n <= usize::MAX ==> passed_cap(o, n).used == o.used + n,
        o.used + n > usize::MAX ==> passed_cap(o, n).used == usize::MAX,
{
}

} // verus!
