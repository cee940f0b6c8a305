//! Parsing of runtest lines and of test output.

use crate::errors::ErrorView;
use crate::errors::KirkError;
use crate::results::ResultStatus;
use crate::text;
use vstd::prelude::*;
use vstd::string::*;

verus! {

/// Cap for the bytes of test output that are inspected.
pub const MAX_STDOUT_BYTES: usize = 8388608;

/// Cap for the bytes of metadata that are accepted.
pub const MAX_METADATA_BYTES: usize = 8388608;

/// Counters of the results of a test.
#[derive(Debug, Clone, Copy, PartialEq, Eq, Structural)]
pub struct Counts {
    /// Number of passed tests.
    pub passed: u32,
    /// Number of failed tests.
    pub failed: u32,
    /// Number of broken tests.
    pub broken: u32,
    /// Number of skipped tests.
    pub skipped: u32,
    /// Number of warnings.
    pub warnings: u32,
}

/// All counters at zero.
pub open spec fn no_counts() -> Counts {
    Counts { passed: 0, failed: 0, broken: 0, skipped: 0, warnings: 0 }
}

impl Default for Counts {
    fn default() -> (r: Self)
        ensures
            r == no_counts(),
    {
        Counts { passed: 0, failed: 0, broken: 0, skipped: 0, warnings: 0 }
    }
}

/// First place from `i` on where `c` stands, or the end of `s`.
pub open spec fn next_char(s: Seq<char>, c: char, i: int) -> int
    decreases s.len() - i,
{
    if i < s.len() && s[i] != c {
        next_char(s, c, i + 1)
    } else {
        i
    }
}

/// First place from `i` on where white space stands, or the end of `s`.
pub open spec fn next_space(s: Seq<char>, i: int) -> int
    decreases s.len() - i,
{
    if i < s.len() && !text::is_space(s[i]) {
        next_space(s, i + 1)
    } else {
        i
    }
}

/// Whether a quoted group starts at `i`: a quote that is closed further on.
pub open spec fn opens_group(s: Seq<char>, i: int) -> bool {
    (s[i] == '"' || s[i] == '\'') && next_char(s, s[i], i + 1) < s.len()
}

/// End of the word that starts at `i`: a quoted group ends behind its closing
/// quote, any other word in front of white space.
pub open spec fn word_end(s: Seq<char>, i: int) -> int {
    if opens_group(s, i) {
        next_char(s, s[i], i + 1) + 1
    } else {
        next_space(s, i)
    }
}

/// Words of a runtest line from `i` on; quotes are kept.
pub open spec fn words_from(s: Seq<char>, i: int) -> Seq<Seq<char>>
    decreases s.len() - i,
{
    if i < 0 || i >= s.len() {
        Seq::empty()
    } else if text::is_space(s[i]) {
        words_from(s, i + 1)
    } else {
        proof {
            word_advances(s, i);
        }
        seq![s.subrange(i, word_end(s, i))] + words_from(s, word_end(s, i))
    }
}

/// Words of a runtest line.
pub open spec fn runtest_words(line: Seq<char>) -> Seq<Seq<char>> {
    words_from(line, 0)
}

proof fn next_char_bounds(s: Seq<char>, c: char, i: int)
    requires
        0 <= i <= s.len(),
    ensures
        i <= next_char(s, c, i) <= s.len(),
    decreases s.len() - i,
{
    if i < s.len() && s[i] != c {
        next_char_bounds(s, c, i + 1);
    }
}

proof fn next_space_bounds(s: Seq<char>, i: int)
    requires
        0 <= i <= s.len(),
    ensures
        i <= next_space(s, i) <= s.len(),
    decreases s.len() - i,
{
    if i < s.len() && !text::is_space(s[i]) {
        next_space_bounds(s, i + 1);
    }
}

/// A word has at least one character, and ends within the line.
pub proof fn word_advances(s: Seq<char>, i: int)
    requires
        0 <= i < s.len(),
        !text::is_space(s[i]),
    ensures
        i < word_end(s, i) <= s.len(),
{
    next_char_bounds(s, s[i], i + 1);
    next_space_bounds(s, i + 1);
}

/// No word of a line is empty.
pub proof fn words_have_characters(s: Seq<char>, i: int)
    requires
        0 <= i <= s.len(),
    ensures
        forall|k: int| 0 <= k < words_from(s, i).len() ==> (#[trigger] words_from(s, i)[k]).len() > 0,
    decreases s.len() - i,
{
    if i < s.len() {
        if text::is_space(s[i]) {
            words_have_characters(s, i + 1);
            assert(words_from(s, i) == words_from(s, i + 1));
        } else {
            word_advances(s, i);
            let end = word_end(s, i);
            words_have_characters(s, end);
            assert forall|k: int| 0 <= k < words_from(s, i).len() implies (#[trigger] words_from(
                s,
                i,
            )[k]).len() > 0 by {
                if k > 0 {
                    assert(words_from(s, i)[k] == words_from(s, end)[k - 1]);
                }
            }
        }
    }
}

fn find_char(s: &Vec<char>, c: char, from: usize) -> (r: usize)
    requires
        from <= s@.len(),
    ensures
        r == next_char(s@, c, from as int),
        from <= r <= s@.len(),
{
    let mut i: usize = from;
    while i < s.len() && s[i] != c
        invariant
            from <= i <= s@.len(),
            next_char(s@, c, from as int) == next_char(s@, c, i as int),
        decreases s@.len() - i,
    {
        i = i + 1;
    }
    i
}

fn find_space(s: &Vec<char>, from: usize) -> (r: usize)
    requires
        from <= s@.len(),
    ensures
        r == next_space(s@, from as int),
        from <= r <= s@.len(),
{
    let mut i: usize = from;
    while i < s.len() && !text::is_whitespace(s[i])
        invariant
            from <= i <= s@.len(),
            next_space(s@, from as int) == next_space(s@, i as int),
        decreases s@.len() - i,
    {
        i = i + 1;
    }
    i
}

fn find_word_end(s: &Vec<char>, i: usize) -> (r: usize)
    requires
        i < s@.len(),
        !text::is_space(s@[i as int]),
    ensures
        r == word_end(s@, i as int),
        i < r <= s@.len(),
{
    proof {
        word_advances(s@, i as int);
    }
    let total: usize = s.len();
    let c = s[i];
    if c == '"' || c == '\'' {
        let close = find_char(s, c, i + 1);
        if close < total {
            return close + 1;
        }
    }
    find_space(s, i)
}

/// Split a runtest line into command and arguments. Quoted groups stay intact
/// and keep their quotes.
pub fn split_cmd_args(line: &str) -> (r: Vec<String>)
    ensures
        text::texts(r@) == runtest_words(line@),
        r@.len() == runtest_words(line@).len(),
{
    broadcast use text::texts_push;

    let s = text::chars_of(line);
    let mut r: Vec<String> = Vec::new();
    let mut i: usize = 0;
    assert(text::texts(r@) =~= Seq::<Seq<char>>::empty());
    assert(text::texts(r@) + words_from(s@, 0) =~= words_from(s@, 0));
    while i < s.len()
        invariant
            i <= s@.len(),
            text::texts(r@) + words_from(s@, i as int) == words_from(s@, 0),
        decreases s@.len() - i,
    {
        if text::is_whitespace(s[i]) {
            i = i + 1;
        } else {
            let end = find_word_end(&s, i);
            let word = text::text_of_range(&s, i, end);
            let ghost before = text::texts(r@);
            r.push(word);
            assert(text::texts(r@) + words_from(s@, end as int) =~= before + words_from(
                s@,
                i as int,
            ));
            i = end;
        }
    }
    assert(words_from(s@, i as int) =~= Seq::<Seq<char>>::empty());
    assert(text::texts(r@) =~= words_from(s@, 0));
    r
}

/// Whether `c` belongs to the parameters of a color escape.
pub open spec fn is_parameter(c: char) -> bool {
    text::is_digit(c) || c == ';'
}

/// Whether `c` is an ASCII letter.
pub open spec fn is_letter(c: char) -> bool {
    'a' <= c <= 'z' || 'A' <= c <= 'Z'
}

/// First place from `i` on where no parameter stands.
pub open spec fn parameters_end(s: Seq<char>, i: int) -> int
    decreases s.len() - i,
{
    if i < s.len() && is_parameter(s[i]) {
        parameters_end(s, i + 1)
    } else {
        i
    }
}

/// End of the color escape that starts at `i`: the escape character, an
/// opening bracket, parameters and a letter. It is `i` where none starts.
pub open spec fn escape_end(s: Seq<char>, i: int) -> int {
    let end = parameters_end(s, i + 2);
    if i + 2 < s.len() && s[i] == '\x1b' && s[i + 1] == '[' && is_parameter(s[i + 2]) && end
        < s.len() && is_letter(s[end]) {
        end + 1
    } else {
        i
    }
}

/// Text from `i` on without color escapes.
pub open spec fn stripped_from(s: Seq<char>, i: int) -> Seq<char>
    decreases s.len() - i,
{
    if i < 0 || i >= s.len() {
        Seq::empty()
    } else if escape_end(s, i) > i {
        stripped_from(s, escape_end(s, i))
    } else {
        seq![s[i]] + stripped_from(s, i + 1)
    }
}

/// Text without color escapes.
pub open spec fn stripped(s: Seq<char>) -> Seq<char> {
    stripped_from(s, 0)
}

fn find_escape_end(s: &Vec<char>, i: usize) -> (r: usize)
    requires
        i < s@.len(),
    ensures
        r == escape_end(s@, i as int),
        i <= r <= s@.len(),
{
    let total: usize = s.len();
    if total - i <= 2 || s[i] != '\x1b' || s[i + 1] != '[' {
        return i;
    }
    let mut end: usize = i + 2;
    while end < s.len() && (('0' <= s[end] && s[end] <= '9') || s[end] == ';')
        invariant
            i + 2 <= end <= s@.len(),
            parameters_end(s@, i + 2) == parameters_end(s@, end as int),
            end > i + 2 ==> is_parameter(s@[i + 2]),
        decreases s@.len() - end,
    {
        end = end + 1;
    }
    if end > i + 2 && end < s.len() {
        let c = s[end];
        if ('a' <= c && c <= 'z') || ('A' <= c && c <= 'Z') {
            return end + 1;
        }
    }
    i
}

/// Strip color escapes from test output.
pub fn strip_ansi(stdout: &str) -> (r: String)
    ensures
        r@ == stripped(stdout@),
{
    let s = text::chars_of(stdout);
    let mut r = String::new();
    let mut i: usize = 0;
    assert(r@ + stripped_from(s@, 0) =~= stripped_from(s@, 0));
    while i < s.len()
        invariant
            i <= s@.len(),
            r@ + stripped_from(s@, i as int) == stripped_from(s@, 0),
        decreases s@.len() - i,
    {
        let end = find_escape_end(&s, i);
        if end > i {
            i = end;
        } else {
            let ghost before = r@;
            r.push(s[i]);
            assert(r@ + stripped_from(s@, i + 1) =~= before + stripped_from(s@, i as int));
            i = i + 1;
        }
    }
    assert(stripped_from(s@, i as int) =~= Seq::<char>::empty());
    assert(r@ =~= stripped_from(s@, 0));
    r
}

/// Text without an escape character is left as it is.
pub proof fn plain_is_kept(s: Seq<char>)
    requires
        !s.contains('\x1b'),
    ensures
        stripped(s) == s,
{
    plain_rest(s, 0);
    assert(s.skip(0) =~= s);
}

proof fn plain_rest(s: Seq<char>, i: int)
    requires
        !s.contains('\x1b'),
        0 <= i <= s.len(),
    ensures
        stripped_from(s, i) == s.skip(i),
    decreases s.len() - i,
{
    if i < s.len() {
        assert(s[i] != '\x1b');
        plain_rest(s, i + 1);
        assert(seq![s[i]] + s.skip(i + 1) =~= s.skip(i));
    } else {
        assert(s.skip(i) =~= Seq::<char>::empty());
    }
}

/// First place from `i` on where no white space stands.
pub open spec fn spaces_end(s: Seq<char>, i: int) -> int
    decreases s.len() - i,
{
    if i < s.len() && text::is_space(s[i]) {
        spaces_end(s, i + 1)
    } else {
        i
    }
}

/// First place from `i` on where no digit stands.
pub open spec fn digits_end(s: Seq<char>, i: int) -> int
    decreases s.len() - i,
{
    if i < s.len() && text::decimal_digit(s[i]) {
        digits_end(s, i + 1)
    } else {
        i
    }
}

/// A counter of a summary that starts at `i`: its label, white space, digits
/// and a line feed. Gives where the digits start and where they end.
pub open spec fn counter_at(s: Seq<char>, i: int, label: Seq<char>) -> Option<(int, int)> {
    let from = spaces_end(s, i + label.len());
    let to = digits_end(s, from);
    if text::occurs_at(s, label, i) && from < to && to < s.len() && s[to] == '\n' {
        Some((from, to))
    } else {
        None
    }
}

/// Labels of the counters of a summary, in order. The first one follows the
/// heading.
pub open spec fn summary_labels() -> Seq<Seq<char>> {
    seq!["Summary:\npassed"@, "failed"@, "broken"@, "skipped"@, "warnings"@]
}

/// Whether a summary starts at `i`, from the counter with the number `k` on.
pub open spec fn summary_rest(s: Seq<char>, i: int, k: int) -> Option<Seq<Seq<char>>>
    decreases 5 - k,
{
    if k < 0 || k >= 5 {
        Some(Seq::empty())
    } else {
        match counter_at(s, i, summary_labels()[k]) {
            None => None,
            Some((from, to)) => match summary_rest(s, to + 1, k + 1) {
                None => None,
                Some(rest) => Some(seq![s.subrange(from, to)] + rest),
            },
        }
    }
}

/// Digits of the counters of the summary that starts at `i`.
pub open spec fn summary_at(s: Seq<char>, i: int) -> Option<Seq<Seq<char>>> {
    summary_rest(s, i, 0)
}

/// Digits of the counters of the first summary from `i` on.
pub open spec fn first_summary(s: Seq<char>, i: int) -> Option<Seq<Seq<char>>>
    decreases s.len() - i,
{
    if i >= s.len() {
        None
    } else if summary_at(s, i) is Some {
        summary_at(s, i)
    } else {
        first_summary(s, i + 1)
    }
}

/// Number that the digits of a counter are, where it fits.
pub open spec fn counter_value(digits: Seq<char>) -> Option<nat> {
    text::unsigned_number(digits, u32::MAX as nat)
}

/// Counters of the first summary in test output, where there is one and all
/// its numbers fit.
pub open spec fn summary_counts(s: Seq<char>) -> Option<Counts> {
    match first_summary(s, 0) {
        None => None,
        Some(d) => if counter_value(d[0]) is Some && counter_value(d[1]) is Some && counter_value(
            d[2],
        ) is Some && counter_value(d[3]) is Some && counter_value(d[4]) is Some {
            Some(
                Counts {
                    passed: counter_value(d[0])->0 as u32,
                    failed: counter_value(d[1])->0 as u32,
                    broken: counter_value(d[2])->0 as u32,
                    skipped: counter_value(d[3])->0 as u32,
                    warnings: counter_value(d[4])->0 as u32,
                },
            )
        } else {
            None
        },
    }
}

fn read_counter(s: &Vec<char>, i: usize, label: &str) -> (r: Option<(usize, usize)>)
    requires
        i <= s@.len(),
    ensures
        match r {
            Some((from, to)) => {
                &&& counter_at(s@, i as int, label@) == Some((from as int, to as int))
                &&& from <= to < s@.len()
            },
            None => counter_at(s@, i as int, label@) is None,
        },
{
    let total: usize = s.len();
    let l = text::chars_of(label);
    if !text::stands_at(s, &l, i) {
        return None;
    }
    let start: usize = i + l.len();
    let mut from: usize = start;
    while from < s.len() && text::is_whitespace(s[from])
        invariant
            start <= from <= s@.len(),
            spaces_end(s@, start as int) == spaces_end(s@, from as int),
        decreases s@.len() - from,
    {
        from = from + 1;
    }
    let mut to: usize = from;
    while to < s.len() && text::is_decimal_digit(s[to])
        invariant
            from <= to <= s@.len(),
            digits_end(s@, from as int) == digits_end(s@, to as int),
        decreases s@.len() - to,
    {
        to = to + 1;
    }
    if from < to && to < total && s[to] == '\n' {
        Some((from, to))
    } else {
        None
    }
}

/// Where each counter of the summary that starts at `i` has its digits.
fn read_summary(s: &Vec<char>, i: usize) -> (r: Option<Vec<String>>)
    requires
        i <= s@.len(),
    ensures
        match r {
            Some(v) => {
                &&& summary_at(s@, i as int) == Some(text::texts(v@))
                &&& v@.len() == 5
            },
            None => summary_at(s@, i as int) is None,
        },
{
    broadcast use text::texts_push;

    let total: usize = s.len();
    let labels = ["Summary:\npassed", "failed", "broken", "skipped", "warnings"];
    let mut v: Vec<String> = Vec::new();
    let mut at: usize = i;
    let mut k: usize = 0;
    assert(text::texts(v@) =~= Seq::<Seq<char>>::empty());
    while k < 5
        invariant
            k <= 5,
            v@.len() == k,
            at <= total,
            total == s@.len(),
            labels@.len() == 5,
            forall|j: int| 0 <= j < 5 ==> (#[trigger] labels@[j])@ == summary_labels()[j],
            match summary_rest(s@, at as int, k as int) {
                None => summary_at(s@, i as int) is None,
                Some(rest) => summary_at(s@, i as int) == Some(text::texts(v@) + rest),
            },
        decreases 5 - k,
    {
        match read_counter(s, at, labels[k]) {
            None => {
                return None;
            },
            Some((from, to)) => {
                let digits = text::text_of_range(s, from, to);
                let ghost before = text::texts(v@);
                v.push(digits);
                proof {
                    match summary_rest(s@, to + 1, k + 1) {
                        None => {},
                        Some(rest) => {
                            assert(text::texts(v@) + rest =~= before + (seq![digits@] + rest));
                        },
                    }
                }
                at = to + 1;
                k = k + 1;
            },
        }
    }
    assert(text::texts(v@) + Seq::<Seq<char>>::empty() =~= text::texts(v@));
    Some(v)
}

fn read_value(digits: &String) -> (r: Option<u32>)
    ensures
        match r {
            Some(n) => counter_value(digits@) == Some(n as nat),
            None => counter_value(digits@) is None,
        },
{
    match text::parse_unsigned(digits.as_str(), 0xffff_ffff) {
        Some(n) => Some(n as u32),
        None => None,
    }
}

fn read_values(d: &Vec<String>) -> (r: Option<Counts>)
    requires
        d@.len() == 5,
    ensures
        match r {
            Some(c) => {
                &&& counter_value(d@[0]@) == Some(c.passed as nat)
                &&& counter_value(d@[1]@) == Some(c.failed as nat)
                &&& counter_value(d@[2]@) == Some(c.broken as nat)
                &&& counter_value(d@[3]@) == Some(c.skipped as nat)
                &&& counter_value(d@[4]@) == Some(c.warnings as nat)
            },
            None => counter_value(d@[0]@) is None || counter_value(d@[1]@) is None
                || counter_value(d@[2]@) is None || counter_value(d@[3]@) is None
                || counter_value(d@[4]@) is None,
        },
{
    let passed = read_value(&d[0])?;
    let failed = read_value(&d[1])?;
    let broken = read_value(&d[2])?;
    let skipped = read_value(&d[3])?;
    let warnings = read_value(&d[4])?;
    Some(Counts { passed, failed, broken, skipped, warnings })
}

/// Parse the summary of test output; `None` where there is none, or where a
/// number does not fit.
pub fn parse_summary(stdout: &str) -> (r: Option<Counts>)
    ensures
        r == summary_counts(stdout@),
{
    let s = text::chars_of(stdout);
    let mut i: usize = 0;
    while i < s.len()
        invariant
            i <= s@.len(),
            s@ == stdout@,
            first_summary(s@, 0) == first_summary(s@, i as int),
        decreases s@.len() - i,
    {
        match read_summary(&s, i) {
            Some(d) => {
                proof {
                    assert(text::texts(d@)[0] == d@[0]@);
                    assert(text::texts(d@)[1] == d@[1]@);
                    assert(text::texts(d@)[2] == d@[2]@);
                    assert(text::texts(d@)[3] == d@[3]@);
                    assert(text::texts(d@)[4] == d@[4]@);
                }
                return read_values(&d);
            },
            None => {
                i = i + 1;
            },
        }
    }
    None
}

/// Number of times that `marker` occurs in `s` from `i` on, where occurrences
/// do not overlap.
pub open spec fn occurrences(s: Seq<char>, marker: Seq<char>, i: int) -> nat
    decreases s.len() - i,
{
    if i < 0 || i >= s.len() || marker.len() == 0 {
        0
    } else if text::occurs_at(s, marker, i) {
        1 + occurrences(s, marker, i + marker.len())
    } else {
        occurrences(s, marker, i + 1)
    }
}

/// Number of times that `marker` occurs in `s`, as far as it fits.
pub open spec fn marker_count(s: Seq<char>, marker: Seq<char>) -> u32 {
    let n = occurrences(s, marker, 0);
    if n > u32::MAX {
        u32::MAX
    } else {
        n as u32
    }
}

/// Counters by the markers in test output.
pub open spec fn marked_counts(s: Seq<char>) -> Counts {
    Counts {
        passed: marker_count(s, "TPASS"@),
        failed: marker_count(s, "TFAIL"@),
        broken: marker_count(s, "TBROK"@),
        skipped: marker_count(s, "TSKIP"@),
        warnings: marker_count(s, "TWARN"@),
    }
}

fn count_marker(s: &Vec<char>, marker: &str) -> (r: u32)
    requires
        marker@.len() > 0,
    ensures
        r == marker_count(s@, marker@),
{
    let m = text::chars_of(marker);
    let total: usize = s.len();
    let mut n: usize = 0;
    let mut i: usize = 0;
    while i < total
        invariant
            i <= total,
            total == s@.len(),
            m@ == marker@,
            m@.len() > 0,
            n <= i,
            n + occurrences(s@, m@, i as int) == occurrences(s@, m@, 0),
        decreases total - i,
    {
        if text::stands_at(s, &m, i) {
            n = n + 1;
            i = i + m.len();
        } else {
            i = i + 1;
        }
    }
    if n > 0xffff_ffff {
        0xffff_ffff
    } else {
        n as u32
    }
}

/// Count the markers in test output.
pub fn count_markers(stdout: &str) -> (r: Counts)
    ensures
        r == marked_counts(stdout@),
{
    proof {
        reveal_strlit("TPASS");
        reveal_strlit("TFAIL");
        reveal_strlit("TBROK");
        reveal_strlit("TSKIP");
        reveal_strlit("TWARN");
    }
    let s = text::chars_of(stdout);
    Counts {
        passed: count_marker(&s, "TPASS"),
        failed: count_marker(&s, "TFAIL"),
        broken: count_marker(&s, "TBROK"),
        skipped: count_marker(&s, "TSKIP"),
        warnings: count_marker(&s, "TWARN"),
    }
}

/// Status for the return code of a test.
pub open spec fn status_of(retcode: i32) -> i32 {
    if retcode == 0 {
        ResultStatus::PASS
    } else if retcode == 2 || retcode == -1 {
        ResultStatus::BROK
    } else if retcode == 4 {
        ResultStatus::WARN
    } else if retcode == 32 {
        ResultStatus::CONF
    } else {
        ResultStatus::FAIL
    }
}

/// Map a return code to a [`ResultStatus`].
pub fn retcode_status(retcode: i32) -> (r: i32)
    ensures
        r == status_of(retcode),
{
    if retcode == 0 {
        ResultStatus::PASS
    } else if retcode == 2 || retcode == -1 {
        ResultStatus::BROK
    } else if retcode == 4 {
        ResultStatus::WARN
    } else if retcode == 32 {
        ResultStatus::CONF
    } else {
        ResultStatus::FAIL
    }
}

/// Whether a suite name stays inside the runtest directory: it has no
/// separator, no parent reference and no NUL.
pub open spec fn is_confined(name: Seq<char>) -> bool {
    &&& !name.contains('/')
    &&& !name.contains('\\')
    &&& !name.contains('\0')
    &&& !text::contains_text(name, ".."@)
}

/// Error for a suite name that could leave the runtest directory.
pub open spec fn suite_name_error(name: Seq<char>) -> ErrorView {
    ErrorView::Framework("invalid suite name: "@ + text::quoted_text(name))
}

/// Reject suite names that could leave the runtest directory.
pub fn validate_suite_name(name: &str) -> (r: Result<(), KirkError>)
    ensures
        match r {
            Ok(_) => is_confined(name@),
            Err(e) => !is_confined(name@) && e@ == suite_name_error(name@),
        },
{
    if text::contains_char(name, '/') || text::contains_char(name, '\\') || text::contains_char(
        name,
        '\0',
    ) || text::contains(name, "..") {
        let shown = text::quoted(name);
        return Err(KirkError::Framework(text::cat2("invalid suite name: ", shown.as_str())));
    }
    Ok(())
}

/// Longest start of `s` that has at most `cap` bytes.
pub open spec fn cut(s: Seq<char>, cap: nat) -> Seq<char>
    decreases s.len(),
{
    if s.len() == 0 || text::byte_len(s) <= cap {
        s
    } else {
        cut(s.drop_last(), cap)
    }
}

/// Whether `r` is the longest start of `s` that has at most `cap` bytes.
pub open spec fn is_cut(s: Seq<char>, r: Seq<char>, cap: nat) -> bool {
    &&& r.is_prefix_of(s)
    &&& text::byte_len(r) <= cap
    &&& r.len() < s.len() ==> text::byte_len(s.take(r.len() as int + 1)) > cap
}

/// What is cut off does not fit: the start that is kept is within the cap, and
/// one more character would not be.
pub proof fn cut_is_longest(s: Seq<char>, cap: nat)
    ensures
        is_cut(s, cut(s, cap), cap),
    decreases s.len(),
{
    if s.len() == 0 {
        assert(text::byte_len(s) == 0);
        assert(s.is_prefix_of(s));
    } else if text::byte_len(s) <= cap {
        assert(s.is_prefix_of(s));
    } else {
        let front = s.drop_last();
        let r = cut(front, cap);
        cut_is_longest(front, cap);
        assert(r =~= s.take(r.len() as int));
        if r.len() < front.len() {
            assert(front.take(r.len() as int + 1) =~= s.take(r.len() as int + 1));
        } else {
            assert(s.take(r.len() as int + 1) =~= s);
        }
    }
}

proof fn cut_is_unique(s: Seq<char>, r: Seq<char>, cap: nat)
    requires
        is_cut(s, r, cap),
    ensures
        r == cut(s, cap),
    decreases s.len(),
{
    if r.len() == s.len() {
        assert(r =~= s);
    } else {
        let front = s.drop_last();
        let next = s.take(r.len() as int + 1);
        text::byte_len_of_concat(next, s.skip(r.len() as int + 1));
        assert(next + s.skip(r.len() as int + 1) =~= s);
        assert(r =~= front.take(r.len() as int));
        if r.len() < front.len() {
            assert(front.take(r.len() as int + 1) =~= next);
        }
        cut_is_unique(front, r, cap);
    }
}

/// Truncate test output to the cap on its bytes.
pub fn truncate_stdout(stdout: &str) -> (r: String)
    ensures
        r@ == cut(stdout@, MAX_STDOUT_BYTES as nat),
{
    let s = text::chars_of(stdout);
    let mut n: usize = 0;
    let mut bytes: usize = 0;
    assert(s@.take(0) =~= Seq::<char>::empty());
    while n < s.len()
        invariant_except_break
            n <= s@.len(),
            s@ == stdout@,
            bytes <= MAX_STDOUT_BYTES,
            bytes == text::byte_len(s@.take(n as int)),
        ensures
            n <= s@.len(),
            text::byte_len(s@.take(n as int)) <= MAX_STDOUT_BYTES,
            n < s@.len() ==> text::byte_len(s@.take(n + 1)) > MAX_STDOUT_BYTES,
        decreases s@.len() - n,
    {
        let more = text::char_bytes(s[n]);
        proof {
            let one = seq![s@[n as int]];
            assert(s@.take(n + 1) =~= s@.take(n as int) + one);
            text::byte_len_of_concat(s@.take(n as int), one);
            reveal_with_fuel(vstd::utf8::encode_utf8, 2);
        }
        if bytes + more > MAX_STDOUT_BYTES {
            break;
        }
        bytes = bytes + more;
        n = n + 1;
    }
    let r = text::text_of_range(&s, 0, n);
    assert(r@ =~= stdout@.take(n as int));
    proof {
        cut_is_unique(stdout@, r@, MAX_STDOUT_BYTES as nat);
    }
    r
}

proof fn next_char_shifts(s: Seq<char>, c: char, base: int, i: int)
    requires
        0 <= base <= i <= s.len(),
    ensures
        next_char(s, c, i) == base + next_char(s.skip(base), c, i - base),
    decreases s.len() - i,
{
    if i < s.len() && s[i] != c {
        next_char_shifts(s, c, base, i + 1);
    }
}

proof fn next_space_shifts(s: Seq<char>, base: int, i: int)
    requires
        0 <= base <= i <= s.len(),
    ensures
        next_space(s, i) == base + next_space(s.skip(base), i - base),
    decreases s.len() - i,
{
    if i < s.len() && !text::is_space(s[i]) {
        next_space_shifts(s, base, i + 1);
    }
}

proof fn words_shift(s: Seq<char>, base: int, i: int)
    requires
        0 <= base <= i <= s.len(),
    ensures
        words_from(s, i) == words_from(s.skip(base), i - base),
    decreases s.len() - i,
{
    let t = s.skip(base);
    if i < s.len() {
        assert(s[i] == t[i - base]);
        if text::is_space(s[i]) {
            words_shift(s, base, i + 1);
        } else {
            word_advances(s, i);
            next_char_shifts(s, s[i], base, i + 1);
            next_space_shifts(s, base, i);
            let end = word_end(s, i);
            assert(end == base + word_end(t, i - base));
            words_shift(s, base, end);
            assert(s.subrange(i, end) =~= t.subrange(i - base, end - base));
        }
    }
}

proof fn next_space_found(s: Seq<char>, i: int, end: int)
    requires
        0 <= i <= end <= s.len(),
        forall|k: int| i <= k < end ==> !text::is_space(#[trigger] s[k]),
        end == s.len() || text::is_space(s[end]),
    ensures
        next_space(s, i) == end,
    decreases end - i,
{
    if i < end {
        next_space_found(s, i + 1, end);
    }
}

proof fn next_char_found(s: Seq<char>, c: char, i: int, end: int)
    requires
        0 <= i <= end < s.len(),
        forall|k: int| i <= k < end ==> #[trigger] s[k] != c,
        s[end] == c,
    ensures
        next_char(s, c, i) == end,
    decreases end - i,
{
    if i < end {
        next_char_found(s, c, i + 1, end);
    }
}

/// White space in front of a line gives no word.
pub proof fn leading_space_is_skipped(gap: Seq<char>, rest: Seq<char>)
    requires
        text::all_space(gap),
    ensures
        runtest_words(gap + rest) == runtest_words(rest),
    decreases gap.len(),
{
    let s = gap + rest;
    if gap.len() > 0 {
        assert(s[0] == gap[0]);
        words_shift(s, 1, 1);
        assert(s.skip(1) =~= gap.drop_first() + rest);
        leading_space_is_skipped(gap.drop_first(), rest);
    } else {
        assert(s =~= rest);
    }
}

/// A word that does not start with a quote reaches up to the next white space,
/// and the words behind it follow.
pub proof fn plain_word_is_taken(word: Seq<char>, rest: Seq<char>)
    requires
        word.len() > 0,
        word[0] != '"' && word[0] != '\'',
        forall|i: int| 0 <= i < word.len() ==> !text::is_space(#[trigger] word[i]),
        rest.len() > 0 ==> text::is_space(rest[0]),
    ensures
        runtest_words(word + rest) == seq![word] + runtest_words(rest),
{
    let s = word + rest;
    let n = word.len() as int;
    assert(s[0] == word[0]);
    assert(!text::is_space(word[0]));
    assert forall|k: int| 0 <= k < n implies !text::is_space(#[trigger] s[k]) by {
        assert(s[k] == word[k]);
    }
    if rest.len() > 0 {
        assert(s[n] == rest[0]);
    }
    next_space_found(s, 0, n);
    words_shift(s, n, n);
    assert(s.skip(n) =~= rest);
    assert(s.subrange(0, n) =~= word);
}

/// A quoted group is one word up to its closing quote, white space and quotes
/// of the other kind included; it keeps its quotes.
pub proof fn quoted_group_is_taken(quote: char, body: Seq<char>, rest: Seq<char>)
    requires
        quote == '"' || quote == '\'',
        !body.contains(quote),
    ensures
        runtest_words(seq![quote] + body + seq![quote] + rest) == seq![
            seq![quote] + body + seq![quote],
        ] + runtest_words(rest),
{
    let word = seq![quote] + body + seq![quote];
    let s = word + rest;
    let n = word.len() as int;
    assert(seq![quote] + body + seq![quote] + rest =~= s);
    assert forall|k: int| 1 <= k < n - 1 implies #[trigger] s[k] != quote by {
        assert(s[k] == body[k - 1]);
    }
    assert(s[n - 1] == quote);
    next_char_found(s, quote, 1, n - 1);
    words_shift(s, n, n);
    assert(s.skip(n) =~= rest);
    assert(s.subrange(0, n) =~= word);
}

/// Whether a word stands for itself in a runtest line.
pub open spec fn is_plain(word: Seq<char>) -> bool {
    &&& word.len() > 0
    &&& word[0] != '"' && word[0] != '\''
    &&& forall|i: int| 0 <= i < word.len() ==> !text::is_space(#[trigger] word[i])
}

/// Words that stand for themselves, written with blanks between them, are
/// read back.
pub proof fn written_words_are_read(words: Seq<Seq<char>>)
    requires
        forall|i: int| 0 <= i < words.len() ==> is_plain(#[trigger] words[i]),
    ensures
        runtest_words(text::joined(words, " "@)) == words,
    decreases words.len(),
{
    reveal_strlit(" ");
    if words.len() == 0 {
        assert(runtest_words(text::joined(words, " "@)) =~= words);
    } else {
        assert(is_plain(words[0]));
        let tail = words.drop_first();
        assert forall|i: int| 0 <= i < tail.len() implies is_plain(#[trigger] tail[i]) by {
            assert(tail[i] == words[i + 1]);
        }
        written_words_are_read(tail);
        assert(seq![words[0]] + tail =~= words);
        if words.len() == 1 {
            plain_word_is_taken(words[0], Seq::empty());
            assert(words[0] + Seq::<char>::empty() =~= words[0]);
            assert(runtest_words(Seq::<char>::empty()) =~= tail);
        } else {
            text::joined_from_the_front(words, " "@);
            let rest = " "@ + text::joined(tail, " "@);
            assert(text::joined(words, " "@) =~= words[0] + rest);
            plain_word_is_taken(words[0], rest);
            leading_space_is_skipped(" "@, text::joined(tail, " "@));
        }
    }
}

proof fn parameters_shift(s: Seq<char>, base: int, i: int)
    requires
        0 <= base <= i <= s.len(),
    ensures
        parameters_end(s, i) == base + parameters_end(s.skip(base), i - base),
    decreases s.len() - i,
{
    if i < s.len() && is_parameter(s[i]) {
        parameters_shift(s, base, i + 1);
    }
}

proof fn parameters_found(s: Seq<char>, i: int, end: int)
    requires
        0 <= i <= end < s.len(),
        forall|k: int| i <= k < end ==> is_parameter(#[trigger] s[k]),
        !is_parameter(s[end]),
    ensures
        parameters_end(s, i) == end,
    decreases end - i,
{
    if i < end {
        parameters_found(s, i + 1, end);
    }
}

proof fn parameters_within(s: Seq<char>, i: int)
    requires
        0 <= i <= s.len(),
    ensures
        i <= parameters_end(s, i) <= s.len(),
    decreases s.len() - i,
{
    if i < s.len() && is_parameter(s[i]) {
        parameters_within(s, i + 1);
    }
}

proof fn stripping_shifts(s: Seq<char>, base: int, i: int)
    requires
        0 <= base <= i <= s.len(),
    ensures
        stripped_from(s, i) == stripped_from(s.skip(base), i - base),
    decreases s.len() - i,
{
    let t = s.skip(base);
    if i < s.len() {
        assert(s[i] == t[i - base]);
        if i + 2 < s.len() {
            parameters_shift(s, base, i + 2);
            parameters_within(s, i + 2);
        }
        assert(escape_end(s, i) == base + escape_end(t, i - base));
        if escape_end(s, i) > i {
            stripping_shifts(s, base, escape_end(s, i));
        } else {
            stripping_shifts(s, base, i + 1);
        }
    }
}

/// Text in front of a color escape is kept as it is, the escape is taken out,
/// and what follows is read on.
pub proof fn color_escape_is_removed(
    plain: Seq<char>,
    parameters: Seq<char>,
    letter: char,
    rest: Seq<char>,
)
    requires
        !plain.contains('\x1b'),
        parameters.len() > 0,
        forall|i: int|
            0 <= i < parameters.len() ==> text::is_digit(#[trigger] parameters[i]) || parameters[i]
                == ';',
        'a' <= letter <= 'z' || 'A' <= letter <= 'Z',
    ensures
        stripped(plain + (seq!['\x1b', '['] + parameters + seq![letter]) + rest) == plain + stripped(
            rest,
        ),
    decreases plain.len(),
{
    let escape = seq!['\x1b', '['] + parameters + seq![letter];
    let s = plain + escape + rest;
    if plain.len() > 0 {
        assert(plain[0] != '\x1b');
        assert(s[0] == plain[0]);
        let tail = plain.drop_first();
        assert forall|i: int| 0 <= i < tail.len() implies #[trigger] tail[i] != '\x1b' by {
            assert(tail[i] == plain[i + 1]);
        }
        color_escape_is_removed(tail, parameters, letter, rest);
        stripping_shifts(s, 1, 1);
        assert(s.skip(1) =~= tail + escape + rest);
        assert(seq![plain[0]] + (tail + stripped(rest)) =~= plain + stripped(rest));
    } else {
        let n = escape.len() as int;
        assert(s =~= escape + rest);
        assert forall|k: int| 2 <= k < n - 1 implies is_parameter(#[trigger] s[k]) by {
            assert(s[k] == parameters[k - 2]);
        }
        assert(s[2] == parameters[0]);
        assert(s[n - 1] == letter);
        parameters_found(s, 2, n - 1);
        assert(escape_end(s, 0) == n);
        stripping_shifts(s, n, n);
        assert(s.skip(n) =~= rest);
        assert(plain + stripped(rest) =~= stripped(rest));
    }
}

/// A summary as tests write it: the counters under their labels, each on a
/// line of its own, with white space in front of its number.
pub open spec fn summary_text(c: Counts, gaps: Seq<Seq<char>>) -> Seq<char> {
    counter_text("Summary:\npassed"@, gaps[0], c.passed) + counter_text(
        "failed"@,
        gaps[1],
        c.failed,
    ) + counter_text("broken"@, gaps[2], c.broken) + counter_text("skipped"@, gaps[3], c.skipped)
        + counter_text("warnings"@, gaps[4], c.warnings)
}

/// A counter of a summary as tests write it.
pub open spec fn counter_text(label: Seq<char>, gap: Seq<char>, n: u32) -> Seq<char> {
    label + gap + text::decimal_text(n as nat) + "\n"@
}

proof fn spaces_found(s: Seq<char>, i: int, end: int)
    requires
        0 <= i <= end < s.len(),
        forall|k: int| i <= k < end ==> text::is_space(#[trigger] s[k]),
        !text::is_space(s[end]),
    ensures
        spaces_end(s, i) == end,
    decreases end - i,
{
    if i < end {
        spaces_found(s, i + 1, end);
    }
}

proof fn digits_found(s: Seq<char>, i: int, end: int)
    requires
        0 <= i <= end < s.len(),
        forall|k: int| i <= k < end ==> text::is_digit(#[trigger] s[k]),
        s[end] == '\n',
    ensures
        digits_end(s, i) == end,
    decreases end - i,
{
    if i < end {
        digits_found(s, i + 1, end);
    }
}

proof fn counter_is_read(
    before: Seq<char>,
    label: Seq<char>,
    gap: Seq<char>,
    n: u32,
    after: Seq<char>,
)
    requires
        text::all_space(gap),
    ensures
        ({
            let s = before + counter_text(label, gap, n) + after;
            let from = before.len() + label.len() + gap.len();
            let digits = text::decimal_text(n as nat);
            let to = from + digits.len();
            &&& counter_at(s, before.len() as int, label) == Some((from as int, to as int))
            &&& s.subrange(from as int, to as int) == digits
            &&& to + 1 == before.len() + counter_text(label, gap, n).len()
        }),
{
    reveal_strlit("\n");
    let digits = text::decimal_text(n as nat);
    let s = before + counter_text(label, gap, n) + after;
    let at = before.len() as int;
    let from = at + label.len() + gap.len();
    let to = from + digits.len();
    text::decimal_text_is_digits(n as nat);
    assert(s.subrange(at, at + label.len()) =~= label);
    assert forall|k: int| at + label.len() <= k < from implies text::is_space(#[trigger] s[k]) by {
        assert(s[k] == gap[k - at - label.len()]);
    }
    assert forall|k: int| from <= k < to implies text::is_digit(#[trigger] s[k]) by {
        assert(s[k] == digits[k - from]);
    }
    assert(s[to] == '\n');
    assert(s[from] == digits[0]);
    spaces_found(s, at + label.len(), from);
    digits_found(s, from, to);
    assert(s.subrange(from, to) =~= digits);
}

proof fn five_in_a_row(
    before: Seq<char>,
    t0: Seq<char>,
    t1: Seq<char>,
    t2: Seq<char>,
    t3: Seq<char>,
    t4: Seq<char>,
    after: Seq<char>,
)
    ensures
        ({
            let s = before + (t0 + t1 + t2 + t3 + t4) + after;
            &&& s == before + t0 + (t1 + t2 + t3 + t4 + after)
            &&& s == before + t0 + t1 + (t2 + t3 + t4 + after)
            &&& s == before + t0 + t1 + t2 + (t3 + t4 + after)
            &&& s == before + t0 + t1 + t2 + t3 + (t4 + after)
            &&& s == before + t0 + t1 + t2 + t3 + t4 + after
        }),
{
    let s = before + (t0 + t1 + t2 + t3 + t4) + after;
    assert(s =~= before + t0 + (t1 + t2 + t3 + t4 + after));
    assert(s =~= before + t0 + t1 + (t2 + t3 + t4 + after));
    assert(s =~= before + t0 + t1 + t2 + (t3 + t4 + after));
    assert(s =~= before + t0 + t1 + t2 + t3 + (t4 + after));
    assert(s =~= before + t0 + t1 + t2 + t3 + t4 + after);
}

proof fn one_more_counter(
    before: Seq<char>,
    k: int,
    gap: Seq<char>,
    n: u32,
    after: Seq<char>,
    rest: Seq<Seq<char>>,
)
    requires
        0 <= k < 5,
        text::all_space(gap),
        ({
            let own = counter_text(summary_labels()[k], gap, n);
            summary_rest(before + own + after, (before.len() + own.len()) as int, k + 1) == Some(
                rest,
            )
        }),
    ensures
        summary_rest(
            before + counter_text(summary_labels()[k], gap, n) + after,
            before.len() as int,
            k,
        ) == Some(seq![text::decimal_text(n as nat)] + rest),
{
    counter_is_read(before, summary_labels()[k], gap, n, after);
}

/// The first summary in the output is read as it was written: every counter
/// is the number under its own label, whatever stands around the summary.
pub proof fn written_summary_is_read(
    before: Seq<char>,
    c: Counts,
    gaps: Seq<Seq<char>>,
    after: Seq<char>,
)
    requires
        gaps.len() == 5,
        forall|i: int| 0 <= i < 5 ==> text::all_space(#[trigger] gaps[i]),
        forall|i: int|
            0 <= i < before.len() ==> !#[trigger] text::occurs_at(
                before + summary_text(c, gaps) + after,
                "Summary:\npassed"@,
                i,
            ),
    ensures
        summary_counts(before + summary_text(c, gaps) + after) == Some(c),
{
    let s = before + summary_text(c, gaps) + after;
    let t0 = counter_text("Summary:\npassed"@, gaps[0], c.passed);
    let t1 = counter_text("failed"@, gaps[1], c.failed);
    let t2 = counter_text("broken"@, gaps[2], c.broken);
    let t3 = counter_text("skipped"@, gaps[3], c.skipped);
    let t4 = counter_text("warnings"@, gaps[4], c.warnings);
    let b1 = before + t0;
    let b2 = b1 + t1;
    let b3 = b2 + t2;
    let b4 = b3 + t3;
    five_in_a_row(before, t0, t1, t2, t3, t4, after);
    let none = Seq::<Seq<char>>::empty();
    let d4 = seq![text::decimal_text(c.warnings as nat)] + none;
    let d3 = seq![text::decimal_text(c.skipped as nat)] + d4;
    let d2 = seq![text::decimal_text(c.broken as nat)] + d3;
    let d1 = seq![text::decimal_text(c.failed as nat)] + d2;
    let d0 = seq![text::decimal_text(c.passed as nat)] + d1;
    assert(text::all_space(gaps[0]) && text::all_space(gaps[1]) && text::all_space(gaps[2])
        && text::all_space(gaps[3]) && text::all_space(gaps[4]));
    one_more_counter(b4, 4, gaps[4], c.warnings, after, none);
    one_more_counter(b3, 3, gaps[3], c.skipped, t4 + after, d4);
    one_more_counter(b2, 2, gaps[2], c.broken, t3 + t4 + after, d3);
    one_more_counter(b1, 1, gaps[1], c.failed, t2 + t3 + t4 + after, d2);
    one_more_counter(before, 0, gaps[0], c.passed, t1 + t2 + t3 + t4 + after, d1);
    let at = before.len() as int;
    summary_is_first(s, 0, at);
    assert(first_summary(s, 0) == Some(d0));
    text::decimal_round_trip(c.passed as nat, u32::MAX as nat);
    text::decimal_round_trip(c.failed as nat, u32::MAX as nat);
    text::decimal_round_trip(c.broken as nat, u32::MAX as nat);
    text::decimal_round_trip(c.skipped as nat, u32::MAX as nat);
    text::decimal_round_trip(c.warnings as nat, u32::MAX as nat);
}

proof fn summary_is_first(s: Seq<char>, i: int, at: int)
    requires
        0 <= i <= at < s.len(),
        summary_at(s, at) is Some,
        forall|k: int| i <= k < at ==> !#[trigger] text::occurs_at(s, "Summary:\npassed"@, k),
    ensures
        first_summary(s, i) == summary_at(s, at),
    decreases at - i,
{
    if i < at {
        assert(!text::occurs_at(s, "Summary:\npassed"@, i));
        assert(summary_labels()[0] == "Summary:\npassed"@);
        assert(counter_at(s, i, summary_labels()[0]) is None);
        assert(summary_rest(s, i, 0) is None);
        summary_is_first(s, i + 1, at);
    }
}

/// Output without the heading of a summary has none.
pub proof fn no_heading_no_summary(s: Seq<char>)
    requires
        !text::contains_text(s, "Summary:\npassed"@),
    ensures
        summary_counts(s) is None,
{
    no_summary_from(s, 0);
}

proof fn no_summary_from(s: Seq<char>, i: int)
    requires
        0 <= i <= s.len(),
        !text::contains_text(s, "Summary:\npassed"@),
    ensures
        first_summary(s, i) is None,
    decreases s.len() - i,
{
    if i < s.len() {
        assert(!text::occurs_at(s, "Summary:\npassed"@, i));
        assert(summary_labels()[0] == "Summary:\npassed"@);
        assert(summary_rest(s, i, 0) is None);
        no_summary_from(s, i + 1);
    }
}

/// Places from `from` on where a marker stands.
pub open spec fn places_of(s: Seq<char>, marker: Seq<char>, from: int) -> Set<int> {
    Set::new(|i: int| from <= i < s.len() && text::occurs_at(s, marker, i))
}

/// Number that a counter shows, which cannot leave its range.
pub open spec fn capped(n: nat) -> nat {
    if n > u32::MAX {
        u32::MAX as nat
    } else {
        n
    }
}

proof fn places_are_counted(s: Seq<char>, marker: Seq<char>, from: int)
    requires
        0 <= from <= s.len(),
        marker.len() > 0,
        forall|k: int| 0 < k < marker.len() ==> #[trigger] marker[k] != marker[0],
    ensures
        places_of(s, marker, from).finite(),
        places_of(s, marker, from).len() == occurrences(s, marker, from),
    decreases s.len() - from,
{
    let here = places_of(s, marker, from);
    if from >= s.len() {
        assert(here =~= Set::empty());
    } else if text::occurs_at(s, marker, from) {
        let next = from + marker.len();
        places_are_counted(s, marker, next);
        let rest = places_of(s, marker, next);
        assert forall|i: int| from < i < next implies !text::occurs_at(s, marker, i) by {
            if text::occurs_at(s, marker, i) {
                assert(s.subrange(from, next)[i - from] == marker[i - from]);
                assert(s.subrange(i, i + marker.len())[0] == marker[0]);
            }
        }
        assert(here =~= rest.insert(from));
    } else {
        places_are_counted(s, marker, from + 1);
        assert(here =~= places_of(s, marker, from + 1));
    }
}

/// Each counter by markers is the number of places where its marker stands.
pub proof fn markers_are_counted(s: Seq<char>)
    ensures
        ({
            let c = marked_counts(s);
            &&& c.passed == capped(places_of(s, "TPASS"@, 0).len())
            &&& c.failed == capped(places_of(s, "TFAIL"@, 0).len())
            &&& c.broken == capped(places_of(s, "TBROK"@, 0).len())
            &&& c.skipped == capped(places_of(s, "TSKIP"@, 0).len())
            &&& c.warnings == capped(places_of(s, "TWARN"@, 0).len())
        }),
        places_of(s, "TPASS"@, 0).finite(),
        places_of(s, "TFAIL"@, 0).finite(),
        places_of(s, "TBROK"@, 0).finite(),
        places_of(s, "TSKIP"@, 0).finite(),
        places_of(s, "TWARN"@, 0).finite(),
{
    reveal_strlit("TPASS");
    reveal_strlit("TFAIL");
    reveal_strlit("TBROK");
    reveal_strlit("TSKIP");
    reveal_strlit("TWARN");
    places_are_counted(s, "TPASS"@, 0);
    places_are_counted(s, "TFAIL"@, 0);
    places_are_counted(s, "TBROK"@, 0);
    places_are_counted(s, "TSKIP"@, 0);
    places_are_counted(s, "TWARN"@, 0);
}

/// Each return code has its status, and only it.
pub proof fn return_codes_have_statuses(retcode: i32)
    ensures
        status_of(retcode) == ResultStatus::PASS <==> retcode == 0,
        status_of(retcode) == ResultStatus::BROK <==> retcode == 2 || retcode == -1,
        status_of(retcode) == ResultStatus::WARN <==> retcode == 4,
        status_of(retcode) == ResultStatus::CONF <==> retcode == 32,
        status_of(retcode) == ResultStatus::FAIL <==> retcode != 0 && retcode != 2 && retcode != -1
            && retcode != 4 && retcode != 32,
{
}

/// A suite name with a separator, a parent reference or a NUL is refused,
/// wherever that stands; a name without dots and without these is taken.
pub proof fn suite_names_stay_inside(before: Seq<char>, after: Seq<char>)
    ensures
        !is_confined(before + seq!['/'] + after),
        !is_confined(before + seq!['\\'] + after),
        !is_confined(before + seq!['\0'] + after),
        !is_confined(before + ".."@ + after),
        (forall|i: int|
            0 <= i < before.len() ==> #[trigger] before[i] != '/' && before[i] != '\\' && before[i]
                != '\0' && before[i] != '.') ==> is_confined(before),
{
    let n = before.len() as int;
    assert((before + seq!['/'] + after)[n] == '/');
    assert((before + seq!['\\'] + after)[n] == '\\');
    assert((before + seq!['\0'] + after)[n] == '\0');
    let s = before + ".."@ + after;
    assert(s.subrange(n, n + ".."@.len()) =~= ".."@);
    assert(text::occurs_at(s, ".."@, n));
    reveal_strlit("..");
    if text::contains_text(before, ".."@) {
        let at = choose|at: int| text::occurs_at(before, ".."@, at);
        assert(before.subrange(at, at + 2)[0] == before[at]);
        assert(".."@[0] == '.');
    }
}

} // verus!
