//! Expect loop on the serial console, return code parsing and quoting.

use crate::errors::ErrorView;
use crate::errors::KirkError;
use crate::output;
use crate::text;
use crate::words;
use crate::words::LoneBackslash;
use crate::words::SplitRules;
use vstd::prelude::*;
use vstd::string::*;

verus! {

/// Hard cap for one serial capture.
pub const MAX_STDOUT_BYTES: usize = 8388608;

/// Hard cap for a fetched transport file.
pub const MAX_TRANSPORT_BYTES: u64 = 67108864;

/// Bytes of output that the message of a kernel panic shows.
pub const EXCERPT_BYTES: usize = 4096;

/// Carry-over state between waits.
#[derive(Debug)]
pub struct ExpectState {
    /// Unconsumed tail from the previous wait.
    pub pending: String,
    /// Set once a kernel panic is observed.
    pub panicked: bool,
}

impl Default for ExpectState {
    fn default() -> (r: Self)
        ensures
            r.pending@ == Seq::<char>::empty(),
            !r.panicked,
    {
        ExpectState { pending: String::new(), panicked: false }
    }
}

/// Tuning of a wait.
#[derive(Debug, Clone, Copy, PartialEq, Eq, Structural)]
pub struct WaitOptions {
    /// Total time to wait for the message, in milliseconds.
    pub timeout_ms: u64,
    /// Settle delay after a kernel panic before the final read, in
    /// milliseconds.
    pub panic_settle_ms: u64,
}

impl Default for WaitOptions {
    fn default() -> (r: Self)
        ensures
            r == (WaitOptions { timeout_ms: 300000, panic_settle_ms: 2000 }),
    {
        WaitOptions { timeout_ms: 300000, panic_settle_ms: 2000 }
    }
}

/// What a wait does next.
#[derive(Debug)]
pub enum ExpectStep {
    /// Read the next chunk of serial text.
    Read,
    /// Let the panic message arrive, then read once more.
    Settle,
    /// The wait has ended with this output, or this error.
    Done(Result<String, KirkError>),
}

/// What a read of the serial came to.
#[derive(Debug)]
pub enum SerialRead {
    /// Text, or none where no data was ready.
    Chunk(String),
    /// The time to wait is over.
    TimedOut,
    /// The read failed, for the reason given.
    Failed(String),
}

/// A wait for a message on the serial.
#[derive(Debug)]
pub struct Expect {
    stdout: String,
    message: String,
}

/// Position of the first occurrence of `needle` in `hay`.
pub open spec fn is_first_at(hay: Seq<char>, needle: Seq<char>, at: int) -> bool {
    text::occurs_at(hay, needle, at) && forall|j: int| 0 <= j < at ==> !text::occurs_at(hay, needle, j)
}

/// Error of a wait that took too long.
pub open spec fn wait_timeout(message: Seq<char>) -> ErrorView {
    ErrorView::Communication("Timed out waiting for "@ + text::quoted_text(message))
}

/// Whether `tail` is the end of `s` from some character on that takes at
/// least `n` bytes, and the shortest such; all of `s` where that is shorter.
pub open spec fn is_excerpt(s: Seq<char>, tail: Seq<char>, n: nat) -> bool {
    exists|from: int|
        0 <= from <= s.len() && tail == #[trigger] s.skip(from) && (from == 0 || text::byte_len(
            s.skip(from),
        ) >= n) && (from < s.len() ==> text::byte_len(s.skip(from + 1)) < n)
}

/// Whether `e` is the error for a kernel panic in the serial text `all`: it
/// shows the end of that text.
pub open spec fn tells_panic(all: Seq<char>, e: ErrorView) -> bool {
    exists|shown: Seq<char>| #[trigger]
        is_excerpt(all, shown, EXCERPT_BYTES as nat) && e == ErrorView::KernelPanic(
            "guest kernel panic: "@ + shown,
        )
}

/// End of `s` that the message of a kernel panic shows.
pub fn panic_excerpt(s: &str) -> (r: String)
    ensures
        is_excerpt(s@, r@, EXCERPT_BYTES as nat),
{
    let v = text::chars_of(s);
    let mut from: usize = v.len();
    let mut bytes: usize = 0;
    assert(v@.skip(from as int) =~= Seq::<char>::empty());
    while from > 0 && bytes < EXCERPT_BYTES
        invariant
            from <= v@.len(),
            v@ == s@,
            bytes <= EXCERPT_BYTES + 4,
            bytes == text::byte_len(v@.skip(from as int)),
            from < v@.len() ==> text::byte_len(v@.skip(from + 1)) < EXCERPT_BYTES,
        decreases from,
    {
        from = from - 1;
        let ghost tail = v@.skip(from as int);
        assert(tail[0] == v@[from as int]);
        assert(tail.drop_first() =~= v@.skip(from + 1));
        bytes = bytes + text::char_bytes(v[from]);
    }
    let r = text::text_of_range(&v, from, v.len());
    assert(r@ =~= s@.skip(from as int));
    r
}

impl Expect {
    /// Serial text so far.
    pub closed spec fn so_far(self) -> Seq<char> {
        self.stdout@
    }

    /// Message that is waited for.
    pub closed spec fn awaited(self) -> Seq<char> {
        self.message@
    }

    /// Start to wait for `message`, with what the last wait left over.
    pub fn new(state: &mut ExpectState, message: &str) -> (r: Self)
        ensures
            r.so_far() == old(state).pending@,
            r.awaited() == message@,
            final(state).pending@ == Seq::<char>::empty(),
            !final(state).panicked,
    {
        let mut stdout = String::new();
        std::mem::swap(&mut stdout, &mut state.pending);
        state.panicked = false;
        Expect { stdout, message: message.to_owned() }
    }

    /// Decide what to do next, given whether the wait was cancelled or the
    /// guest is gone, and whether the time to wait is over.
    pub fn step(&self, state: &mut ExpectState, abort: bool, expired: bool) -> (r: ExpectStep)
        ensures
            final(state).panicked == old(state).panicked,
            if abort {
                &&& r matches ExpectStep::Done(Ok(out))
                &&& out@ == self.so_far()
                &&& final(state).pending@ == self.so_far()
            } else if text::contains_text(self.so_far(), self.awaited()) {
                &&& r matches ExpectStep::Done(Ok(out))
                &&& out@ == self.so_far()
                &&& exists|at: int| #[trigger]
                    is_first_at(self.so_far(), self.awaited(), at) && final(state).pending@
                        == self.so_far().skip(at + self.awaited().len())
            } else if output::shows_panic(self.so_far()) {
                r is Settle && final(state).pending@ == old(state).pending@
            } else if expired {
                &&& r matches ExpectStep::Done(Err(e))
                &&& e@ == wait_timeout(self.awaited())
                &&& final(state).pending@ == self.so_far()
            } else {
                r is Read && final(state).pending@ == old(state).pending@
            },
    {
        if abort {
            state.pending = self.stdout.clone();
            return ExpectStep::Done(Ok(self.stdout.clone()));
        }
        let hay = text::chars_of(self.stdout.as_str());
        let needle = text::chars_of(self.message.as_str());
        match text::find_from(&hay, &needle, 0) {
            Some(at) => {
                assert(is_first_at(self.so_far(), self.awaited(), at as int));
                let total: usize = hay.len();
                let end: usize = at + needle.len();
                let tail = text::text_of_range(&hay, end, total);
                assert(tail@ =~= self.so_far().skip(at + self.awaited().len()));
                state.pending = tail;
                return ExpectStep::Done(Ok(self.stdout.clone()));
            },
            None => {},
        }
        if text::contains(self.stdout.as_str(), "Kernel panic") {
            return ExpectStep::Settle;
        }
        if expired {
            state.pending = self.stdout.clone();
            return ExpectStep::Done(Err(self.timeout()));
        }
        ExpectStep::Read
    }

    fn timeout(&self) -> (e: KirkError)
        ensures
            e@ == wait_timeout(self.awaited()),
    {
        let message = text::quoted(self.message.as_str());
        KirkError::Communication(text::cat2("Timed out waiting for ", message.as_str()))
    }

    /// Take in a read. Gives the error that ends the wait, if any.
    pub fn receive(&mut self, state: &mut ExpectState, read: SerialRead) -> (r: Option<KirkError>)
        ensures
            final(self).awaited() == old(self).awaited(),
            final(state).panicked == old(state).panicked,
            match read {
                SerialRead::TimedOut => {
                    &&& r matches Some(e)
                    &&& e@ == wait_timeout(old(self).awaited())
                    &&& final(state).pending@ == old(self).so_far()
                    &&& final(self).so_far() == old(self).so_far()
                },
                SerialRead::Failed(reason) => {
                    &&& r matches Some(e)
                    &&& e@ == ErrorView::Communication(reason@)
                    &&& final(state).pending@ == old(self).so_far()
                    &&& final(self).so_far() == old(self).so_far()
                },
                SerialRead::Chunk(data) => if text::byte_len(old(self).so_far()) + text::byte_len(
                    data@,
                ) > MAX_STDOUT_BYTES && data@.len() > 0 {
                    &&& r matches Some(e)
                    &&& e@ == ErrorView::Communication("Serial output exceeds 8 MiB cap"@)
                    &&& final(state).pending@ == old(self).so_far()
                    &&& final(self).so_far() == old(self).so_far()
                } else {
                    &&& r is None
                    &&& final(state).pending@ == old(state).pending@
                    &&& final(self).so_far() == old(self).so_far() + data@
                },
            },
    {
        match read {
            SerialRead::TimedOut => {
                state.pending = self.stdout.clone();
                Some(self.timeout())
            },
            SerialRead::Failed(reason) => {
                state.pending = self.stdout.clone();
                Some(KirkError::Communication(reason))
            },
            SerialRead::Chunk(data) => {
                if data.as_str().is_empty() {
                    assert(self.so_far() + data@ =~= self.so_far());
                    return None;
                }
                let total: u128 = text::byte_count(self.stdout.as_str()) as u128
                    + text::byte_count(data.as_str()) as u128;
                if total > MAX_STDOUT_BYTES as u128 {
                    state.pending = self.stdout.clone();
                    return Some(
                        KirkError::Communication(text::owned("Serial output exceeds 8 MiB cap")),
                    );
                }
                self.stdout.append(data.as_str());
                None
            },
        }
    }

    /// Error of a wait that saw a kernel panic, with the text that still
    /// arrived, if any.
    pub fn settled(self, state: &mut ExpectState, tail: Option<&str>) -> (e: KirkError)
        ensures
            final(state).panicked,
            final(state).pending@ == old(state).pending@,
            tells_panic(
                match text::opt_str(tail) {
                    Some(more) => self.so_far() + more,
                    None => self.so_far(),
                },
                e@,
            ),
    {
        let mut all = self.stdout;
        match tail {
            Some(more) => {
                all.append(more);
            },
            None => {},
        }
        state.panicked = true;
        let shown = panic_excerpt(all.as_str());
        let e = KirkError::KernelPanic(text::cat2("guest kernel panic: ", shown.as_str()));
        assert(is_excerpt(all@, shown@, EXCERPT_BYTES as nat) && e@ == ErrorView::KernelPanic(
            "guest kernel panic: "@ + shown@,
        ));
        e
    }
}

/// Marker of the end of a reply: a dash and the code of the command.
pub open spec fn reply_marker(code: Seq<char>) -> Seq<char> {
    seq!['-'] + code
}

/// Whether a return code and the marker stand around `at`: the dash at `at`,
/// a digit in front of it.
pub open spec fn is_marker(s: Seq<char>, code: Seq<char>, at: int) -> bool {
    0 < at && text::occurs_at(s, reply_marker(code), at) && text::decimal_digit(s[at - 1])
}

/// Whether the first return code stands around `at`.
pub open spec fn is_first_marker(s: Seq<char>, code: Seq<char>, at: int) -> bool {
    is_marker(s, code, at) && forall|j: int| 0 <= j < at ==> !is_marker(s, code, j)
}

/// Start of the digits that end in front of `at`.
pub open spec fn digits_start(s: Seq<char>, at: int) -> int
    decreases at,
{
    if at > 0 && text::decimal_digit(s[at - 1]) {
        digits_start(s, at - 1)
    } else {
        at
    }
}

/// Number that a row of digits is, or why it is none: digits beyond ASCII are
/// not read, nor is a number past the range of `i32`.
pub open spec fn retcode_of(run: Seq<char>) -> Result<nat, Seq<char>>
    decreases run.len(),
{
    if run.len() == 0 {
        Ok(0)
    } else {
        match retcode_of(run.drop_last()) {
            Err(e) => Err(e),
            Ok(n) => if !text::is_digit(run.last()) {
                Err("invalid digit found in string"@)
            } else if n * 10 + text::digit_value(run.last()) > i32::MAX {
                Err("number too large to fit in target type"@)
            } else {
                Ok(n * 10 + text::digit_value(run.last()))
            },
        }
    }
}

/// Output in front of the return code that starts at `start`, without its
/// first byte, which is the echoed line feed. There is none where the reply
/// starts with a character of more than one byte.
pub open spec fn reply_output(s: Seq<char>, start: int) -> Seq<char> {
    if start >= 1 && s[0] <= '\x7f' {
        s.subrange(1, start)
    } else {
        Seq::empty()
    }
}

/// What a reply comes to where the return code stands around `at`.
pub open spec fn reply_at(s: Seq<char>, at: int) -> Result<(Seq<char>, int), ErrorView> {
    let start = digits_start(s, at);
    match retcode_of(s.subrange(start, at)) {
        Ok(n) => Ok((reply_output(s, start), n as int)),
        Err(reason) => Err(ErrorView::Communication(reason)),
    }
}

/// Whether `r` is what the reply `s` comes to.
pub open spec fn reads_reply(
    s: Seq<char>,
    code: Seq<char>,
    r: Result<(Seq<char>, int), ErrorView>,
) -> bool {
    if text::trimmed(s).len() == 0 {
        r == Ok::<(Seq<char>, int), ErrorView>((s, -1))
    } else if exists|at: int| is_marker(s, code, at) {
        exists|at: int| #[trigger] is_first_marker(s, code, at) && r == reply_at(s, at)
    } else {
        r == Err::<(Seq<char>, int), ErrorView>(
            ErrorView::Communication("Can't read return code from reply "@ + text::quoted_text(s)),
        )
    }
}

/// View of the outcome of parsing a reply.
pub open spec fn reply_view(r: Result<(String, i32), KirkError>) -> Result<
    (Seq<char>, int),
    ErrorView,
> {
    match r {
        Ok((s, n)) => Ok((s@, n as int)),
        Err(e) => Err(e@),
    }
}

fn find_marker(s: &Vec<char>, code: &str) -> (r: Option<usize>)
    ensures
        match r {
            Some(at) => is_first_marker(s@, code@, at as int),
            None => forall|j: int| !is_marker(s@, code@, j),
        },
        r matches Some(at) ==> 0 < at < s@.len(),
{
    let mut marker: Vec<char> = Vec::new();
    marker.push('-');
    let mut rest = text::chars_of(code);
    marker.append(&mut rest);
    assert(marker@ =~= reply_marker(code@));
    let mut i: usize = 0;
    while i < s.len()
        invariant
            i <= s@.len(),
            marker@ == reply_marker(code@),
            marker@.len() > 0,
            forall|j: int| 0 <= j < i ==> !is_marker(s@, code@, j),
        decreases s@.len() - i,
    {
        if i > 0 && text::stands_at(s, &marker, i) && text::is_decimal_digit(s[i - 1]) {
            return Some(i);
        }
        i = i + 1;
    }
    None
}

fn read_retcode(s: &Vec<char>, from: usize, to: usize) -> (r: Result<i32, KirkError>)
    requires
        from <= to <= s@.len(),
    ensures
        match retcode_of(s@.subrange(from as int, to as int)) {
            Ok(n) => r matches Ok(v) && v == n,
            Err(reason) => r matches Err(e) && e@ == ErrorView::Communication(reason),
        },
{
    let ghost run = s@.subrange(from as int, to as int);
    let mut n: i32 = 0;
    let mut i: usize = from;
    assert(run.take(0) =~= Seq::<char>::empty());
    while i < to
        invariant
            from <= i <= to <= s@.len(),
            run == s@.subrange(from as int, to as int),
            n >= 0,
            retcode_of(run.take(i - from)) == Ok::<nat, Seq<char>>(n as nat),
        decreases to - i,
    {
        let c = s[i];
        let ghost now = run.take(i - from + 1);
        assert(now.drop_last() =~= run.take(i - from));
        assert(now.last() == c);
        if !('0' <= c && c <= '9') {
            proof {
                retcode_error_stays(run, i - from + 1);
            }
            return Err(KirkError::Communication(text::owned("invalid digit found in string")));
        }
        let d: i64 = (c as u32 - '0' as u32) as i64;
        let next: i64 = n as i64 * 10 + d;
        if next > 0x7fff_ffff {
            proof {
                retcode_error_stays(run, i - from + 1);
            }
            return Err(
                KirkError::Communication(text::owned("number too large to fit in target type")),
            );
        }
        n = next as i32;
        i = i + 1;
    }
    assert(run.take(to - from) =~= run);
    Ok(n)
}

proof fn retcode_error_stays(run: Seq<char>, n: int)
    requires
        0 <= n <= run.len(),
        retcode_of(run.take(n)) is Err,
    ensures
        retcode_of(run) == retcode_of(run.take(n)),
    decreases run.len() - n,
{
    if n == run.len() {
        assert(run.take(n) =~= run);
    } else {
        assert(run.take(n + 1).drop_last() =~= run.take(n));
        retcode_error_stays(run, n + 1);
    }
}

/// Parse the reply to a command whose end is marked with its return code, a
/// dash and `code`.
pub fn parse_reply(stdout: &str, code: &str) -> (r: Result<(String, i32), KirkError>)
    ensures
        reads_reply(stdout@, code@, reply_view(r)),
{
    if text::is_blank(stdout) {
        return Ok((stdout.to_owned(), -1));
    }
    let s = text::chars_of(stdout);
    match find_marker(&s, code) {
        None => {
            let shown = text::quoted(stdout);
            Err(
                KirkError::Communication(
                    text::cat2("Can't read return code from reply ", shown.as_str()),
                ),
            )
        },
        Some(at) => {
            let mut start: usize = at;
            while start > 0 && text::is_decimal_digit(s[start - 1])
                invariant
                    start <= at < s@.len(),
                    digits_start(s@, at as int) == digits_start(s@, start as int),
                decreases start,
            {
                start = start - 1;
            }
            assert(digits_start(s@, at as int) == start);
            let retcode = read_retcode(&s, start, at);
            let out = if start >= 1 && s[0] <= '\x7f' {
                text::text_of_range(&s, 1, start)
            } else {
                String::new()
            };
            let r = match retcode {
                Ok(retcode) => Ok((out, retcode)),
                Err(e) => Err(e),
            };
            assert(is_first_marker(stdout@, code@, at as int));
            assert(reply_view(r) == reply_at(stdout@, at as int));
            r
        },
    }
}

/// What the guest prints after a command is read back: a line feed, the
/// output and the return code with its marker give the output and the return
/// code, where the output does not end in a digit and no return code with the
/// marker stands before its place.
pub proof fn reply_round_trip(
    out: Seq<char>,
    retcode: nat,
    code: Seq<char>,
    rest: Seq<char>,
    r: Result<(Seq<char>, int), ErrorView>,
)
    requires
        retcode <= i32::MAX,
        out.len() == 0 || !text::decimal_digit(out.last()),
        ({
            let s = seq!['\n'] + out + text::decimal_text(retcode) + reply_marker(code) + rest;
            let at = 1 + out.len() + text::decimal_text(retcode).len();
            &&& forall|j: int| 0 <= j < at ==> !is_marker(s, code, j)
            &&& reads_reply(s, code, r)
        }),
    ensures
        r == Ok::<(Seq<char>, int), ErrorView>((out, retcode as int)),
{
    let digits = text::decimal_text(retcode);
    let s = seq!['\n'] + out + digits + reply_marker(code) + rest;
    let at = 1 + out.len() + digits.len();
    text::decimal_text_is_digits(retcode);
    assert(s.subrange(at as int, (at + reply_marker(code).len()) as int) =~= reply_marker(code));
    assert(s[at - 1] == digits.last());
    assert(text::is_digit(digits[digits.len() - 1]));
    assert(is_marker(s, code, at as int));
    assert(is_first_marker(s, code, at as int));
    assert(text::trimmed(s).len() > 0) by {
        nonblank(s, at - 1);
    }
    let first = choose|k: int| #[trigger] is_first_marker(s, code, k) && r == reply_at(s, k);
    assert(first == at) by {
        if first > at {
            assert(!is_marker(s, code, at as int));
        }
    }
    run_start(s, 1 + out.len() as int, at as int);
    let start = 1 + out.len();
    assert(s.subrange(start as int, at as int) =~= digits);
    digits_are_read(digits, retcode);
    assert(s.subrange(1, start as int) =~= out);
    assert(s[0] == '\n');
}

proof fn nonblank(s: Seq<char>, i: int)
    requires
        0 <= i < s.len(),
        text::is_digit(s[i]),
    ensures
        text::trimmed(s).len() > 0,
    decreases s.len(),
{
    if text::is_space(s[0]) {
        assert(s.drop_first()[i - 1] == s[i]);
        nonblank(s.drop_first(), i - 1);
    } else {
        nonblank_end(s, i);
    }
}

proof fn nonblank_end(s: Seq<char>, i: int)
    requires
        0 <= i < s.len(),
        text::is_digit(s[i]),
    ensures
        text::trimmed_end(s).len() > 0,
    decreases s.len(),
{
    if text::is_space(s.last()) {
        assert(s.drop_last()[i] == s[i]);
        nonblank_end(s.drop_last(), i);
    }
}

proof fn run_start(s: Seq<char>, start: int, at: int)
    requires
        0 < start <= at <= s.len(),
        !text::decimal_digit(s[start - 1]),
        forall|i: int| start <= i < at ==> text::decimal_digit(#[trigger] s[i]),
    ensures
        digits_start(s, at) == start,
    decreases at - start,
{
    if at > start {
        assert(text::decimal_digit(s[at - 1]));
        run_start(s, start, at - 1);
    }
}

proof fn digits_are_read(digits: Seq<char>, n: nat)
    requires
        text::all_digits(digits),
        text::digits_value(digits) == n,
        n <= i32::MAX,
    ensures
        retcode_of(digits) == Ok::<nat, Seq<char>>(n),
    decreases digits.len(),
{
    let front = digits.drop_last();
    assert(text::is_digit(digits[digits.len() - 1]));
    if front.len() > 0 {
        assert forall|i: int| 0 <= i < front.len() implies text::is_digit(#[trigger] front[i]) by {
            assert(front[i] == digits[i]);
        }
        digits_are_read(front, text::digits_value(front));
    } else {
        assert(front =~= Seq::<char>::empty());
        assert(text::digits_value(front) == 0);
    }
}

/// Quote `arg` for a POSIX shell.
pub fn shell_quote(arg: &str) -> (r: String)
    ensures
        r@ == words::single_quoted(arg@),
{
    words::single_quote(arg)
}

/// Validate a variable name before it becomes part of a command.
pub fn validate_env_key(key: &str) -> (r: Result<(), KirkError>)
    ensures
        match r {
            Ok(_) => words::is_variable_name(key@),
            Err(e) => !words::is_variable_name(key@) && e@ == env_key_error(key@),
        },
{
    if words::variable_name(key) {
        Ok(())
    } else {
        let shown = text::quoted(key);
        Err(
            KirkError::Communication(
                text::cat2("Invalid environment variable name: ", shown.as_str()),
            ),
        )
    }
}

/// Error for a name that is no shell variable name.
pub open spec fn env_key_error(key: Seq<char>) -> ErrorView {
    ErrorView::Communication("Invalid environment variable name: "@ + text::quoted_text(key))
}

/// How user options are split.
pub open spec fn option_rules() -> SplitRules {
    SplitRules { lone_backslash: LoneBackslash::OpensWord, refuse_syntax: false }
}

/// Words of user options, or the error they give.
pub open spec fn options_of(options: Seq<char>) -> Result<Seq<Seq<char>>, ErrorView> {
    match words::split_line(options, option_rules()) {
        Ok(words) => Ok(words),
        Err(_) => Err(ErrorView::Communication("Unterminated quote in QEMU options"@)),
    }
}

/// Split user options into words.
pub fn split_options(options: &str) -> (r: Result<Vec<String>, KirkError>)
    ensures
        match options_of(options@) {
            Ok(words) => r matches Ok(v) && text::texts(v@) == words,
            Err(x) => r matches Err(e) && e@ == x,
        },
{
    let rules = SplitRules { lone_backslash: LoneBackslash::OpensWord, refuse_syntax: false };
    match words::split_words(options, rules) {
        Ok(v) => Ok(v),
        Err(_) => Err(KirkError::Communication(text::owned("Unterminated quote in QEMU options"))),
    }
}

/// The message of a kernel panic shows the end of the output: all of a short
/// one, and enough of a long one.
pub proof fn excerpts_show_the_end(s: Seq<char>, tail: Seq<char>, n: nat)
    requires
        is_excerpt(s, tail, n),
    ensures
        tail.len() <= s.len(),
        tail == s.skip(s.len() - tail.len()),
        tail == s || text::byte_len(tail) >= n,
        tail.len() > 0 ==> text::byte_len(tail.drop_first()) < n,
{
    let from = choose|from: int|
        0 <= from <= s.len() && tail == #[trigger] s.skip(from) && (from == 0 || text::byte_len(
            s.skip(from),
        ) >= n) && (from < s.len() ==> text::byte_len(s.skip(from + 1)) < n);
    if tail.len() > 0 {
        assert(tail.drop_first() =~= s.skip(from + 1));
    }
}

/// Return codes are read as they are written, up to the largest; a longer one
/// is an error.
pub proof fn retcodes_are_read(n: nat)
    ensures
        n <= i32::MAX ==> retcode_of(text::decimal_text(n)) == Ok::<nat, Seq<char>>(n),
        n > i32::MAX ==> retcode_of(text::decimal_text(n)) is Err,
    decreases n,
{
    let d = text::decimal_text(n);
    text::decimal_text_is_digits(n);
    assert(text::is_digit(d[d.len() - 1]));
    if n < 10 {
        assert(d.drop_last() =~= Seq::<char>::empty());
        assert(text::digits_value(d.drop_last()) == 0);
        assert(retcode_of(d.drop_last()) == Ok::<nat, Seq<char>>(0));
    } else {
        retcodes_are_read(n / 10);
        text::decimal_text_is_digits(n / 10);
        assert(d.drop_last() =~= text::decimal_text(n / 10));
    }
}

/// A row with anything but ASCII digits in it is no return code.
pub proof fn other_digits_are_refused(run: Seq<char>, i: int)
    requires
        0 <= i < run.len(),
        !('0' <= run[i] <= '9'),
    ensures
        retcode_of(run) is Err,
    decreases run.len(),
{
    if i < run.len() - 1 {
        let front = run.drop_last();
        assert(front[i] == run[i]);
        other_digits_are_refused(front, i);
    } else {
        assert(!text::is_digit(run.last()));
    }
}

/// A blank reply is output without a return code, and no error.
pub proof fn blank_replies_are_read(
    s: Seq<char>,
    code: Seq<char>,
    r: Result<(Seq<char>, int), ErrorView>,
)
    requires
        text::all_space(s),
    ensures
        reads_reply(s, code, r) <==> r == Ok::<(Seq<char>, int), ErrorView>((s, -1)),
{
    let none = Seq::<char>::empty();
    text::trimming_leaves_the_core(s, none, none);
    assert(s + none + none =~= s);
}

} // verus!
