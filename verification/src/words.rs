//! Command lines: quoting text for a shell, and splitting a line into words
//! with the shell's quotes and escapes.

use crate::text;
use vstd::prelude::*;
use vstd::string::*;

verus! {

/// What becomes of a backslash at the very end of a line.
#[derive(Debug, Clone, Copy, PartialEq, Eq, Structural)]
pub enum LoneBackslash {
    /// It is a character of the word.
    Kept,
    /// It is dropped, but a word stands there.
    OpensWord,
    /// It is dropped.
    Dropped,
}

/// How a line is split.
#[derive(Debug, Clone, Copy, PartialEq, Eq, Structural)]
pub struct SplitRules {
    /// What becomes of a backslash at the very end.
    pub lone_backslash: LoneBackslash,
    /// Whether unquoted shell operators and substitutions are refused.
    pub refuse_syntax: bool,
}

/// Why a line cannot be split.
#[derive(Debug, Clone, Copy, PartialEq, Eq, Structural)]
pub enum SplitError {
    /// A quote is not closed.
    Unclosed,
    /// The line relies on shell syntax.
    Syntax,
}

/// How far the splitting of a line has come.
#[verifier::ext_equal]
pub struct SplitState {
    /// Words that are complete.
    pub words: Seq<Seq<char>>,
    /// Characters of the word at hand.
    pub current: Seq<char>,
    /// Whether there is a word at hand; it may be empty.
    pub in_word: bool,
    /// Quote that is open.
    pub quote: Option<char>,
}

/// State at the start of a line.
pub open spec fn line_start() -> SplitState {
    SplitState { words: Seq::empty(), current: Seq::empty(), in_word: false, quote: None }
}

/// Whether `c` is a shell control operator.
pub open spec fn is_operator(c: char) -> bool {
    c == '|' || c == ';' || c == '`' || c == '>' || c == '<' || c == '&' || c == '(' || c == ')'
}

/// Whether `char::is_alphanumeric` takes a character.
pub uninterp spec fn unicode_alphanumeric(c: char) -> bool;

/// `char::is_alphanumeric`: whether the character is alphabetic or numeric in
/// Unicode. Among ASCII characters these are the letters and the digits;
/// which others are is left unsaid.
#[verifier::external_body]
fn is_unicode_alphanumeric(c: char) -> (r: bool)
    ensures
        r == unicode_alphanumeric(c),
        c <= '\x7f' ==> r == (('0' <= c <= '9') || ('a' <= c <= 'z') || ('A' <= c <= 'Z')),
{
    c.is_alphanumeric()
}

/// Whether a character is a letter or a digit: those of ASCII, and beyond it
/// the ones that are alphabetic or numeric in Unicode.
pub open spec fn alphanumeric(c: char) -> bool {
    if c <= '\x7f' {
        ('0' <= c <= '9') || ('a' <= c <= 'z') || ('A' <= c <= 'Z')
    } else {
        unicode_alphanumeric(c)
    }
}

/// Decide whether a character is a letter or a digit.
pub fn is_alphanumeric(c: char) -> (r: bool)
    ensures
        r == alphanumeric(c),
{
    is_unicode_alphanumeric(c)
}

/// Whether `$` in front of `c` starts a substitution.
pub open spec fn is_substitution(c: char) -> bool {
    alphanumeric(c) || c == '_' || c == '{' || c == '(' || c == '*' || c == '?' || c == '#' || c
        == '$' || c == '-' || c == '!' || c == '@'
}

/// State with `c` added to the word at hand.
pub open spec fn with_char(st: SplitState, c: char) -> SplitState {
    SplitState { current: st.current.push(c), in_word: true, ..st }
}

/// State with the word at hand, if any, completed.
pub open spec fn word_ended(st: SplitState) -> SplitState {
    if st.in_word {
        SplitState {
            words: st.words.push(st.current),
            current: Seq::empty(),
            in_word: false,
            ..st
        }
    } else {
        st
    }
}

/// Words of the rest `s` of a line, after what came before.
pub open spec fn split_rest(s: Seq<char>, st: SplitState, rules: SplitRules) -> Result<
    Seq<Seq<char>>,
    SplitError,
>
    decreases s.len(),
{
    if s.len() == 0 {
        if st.quote is Some {
            Err(SplitError::Unclosed)
        } else {
            Ok(word_ended(st).words)
        }
    } else {
        let c = s[0];
        let tail = s.drop_first();
        match st.quote {
            Some(q) => if c == q {
                split_rest(tail, SplitState { quote: None, ..st }, rules)
            } else if q == '"' && c == '\\' {
                if s.len() >= 2 {
                    split_rest(
                        tail.drop_first(),
                        SplitState { current: st.current.push(s[1]), ..st },
                        rules,
                    )
                } else {
                    Err(SplitError::Unclosed)
                }
            } else {
                split_rest(tail, SplitState { current: st.current.push(c), ..st }, rules)
            },
            None => if c == '\'' || c == '"' {
                split_rest(tail, SplitState { quote: Some(c), in_word: true, ..st }, rules)
            } else if text::is_space(c) {
                split_rest(tail, word_ended(st), rules)
            } else if c == '\\' {
                if s.len() >= 2 {
                    split_rest(tail.drop_first(), with_char(st, s[1]), rules)
                } else {
                    match rules.lone_backslash {
                        LoneBackslash::Kept => split_rest(tail, with_char(st, c), rules),
                        LoneBackslash::OpensWord => split_rest(
                            tail,
                            SplitState { in_word: true, ..st },
                            rules,
                        ),
                        LoneBackslash::Dropped => split_rest(tail, st, rules),
                    }
                }
            } else if rules.refuse_syntax && (is_operator(c) || (c == '$' && s.len() >= 2
                && is_substitution(s[1]))) {
                Err(SplitError::Syntax)
            } else {
                split_rest(tail, with_char(st, c), rules)
            },
        }
    }
}

/// Words of a line.
pub open spec fn split_line(s: Seq<char>, rules: SplitRules) -> Result<
    Seq<Seq<char>>,
    SplitError,
> {
    split_rest(s, line_start(), rules)
}

fn operator(c: char) -> (r: bool)
    ensures
        r == is_operator(c),
{
    c == '|' || c == ';' || c == '`' || c == '>' || c == '<' || c == '&' || c == '(' || c == ')'
}

fn substitution(c: char) -> (r: bool)
    ensures
        r == is_substitution(c),
{
    is_alphanumeric(c) || c == '_' || c == '{' || c == '(' || c == '*' || c == '?' || c == '#' || c
        == '$' || c == '-' || c == '!' || c == '@'
}

/// Split a line into words.
pub fn split_words(line: &str, rules: SplitRules) -> (r: Result<Vec<String>, SplitError>)
    ensures
        match split_line(line@, rules) {
            Ok(words) => r matches Ok(v) && text::texts(v@) == words,
            Err(e) => r == Err::<Vec<String>, SplitError>(e),
        },
{
    broadcast use text::texts_push;

    let s = text::chars_of(line);
    let n: usize = s.len();
    let mut words: Vec<String> = Vec::new();
    let mut current = String::new();
    let mut in_word = false;
    let mut quote: Option<char> = None;
    let mut i: usize = 0;
    assert(s@.skip(0) =~= s@);
    assert(text::texts(words@) =~= Seq::<Seq<char>>::empty());
    while i < n
        invariant
            i <= n,
            n == s@.len(),
            split_line(line@, rules) == split_rest(
                s@.skip(i as int),
                SplitState { words: text::texts(words@), current: current@, in_word, quote },
                rules,
            ),
        decreases n - i,
    {
        let c = s[i];
        let ghost rest = s@.skip(i as int);
        let ghost st = SplitState {
            words: text::texts(words@),
            current: current@,
            in_word,
            quote,
        };
        assert(rest[0] == c);
        assert(rest.drop_first() =~= s@.skip(i + 1));
        assert(i + 1 < n ==> rest[1] == s@[i + 1]);
        assert(i + 1 < n ==> rest.drop_first().drop_first() =~= s@.skip(i + 2));
        match quote {
            Some(q) => {
                if c == q {
                    quote = None;
                } else if q == '"' && c == '\\' {
                    if i + 1 < n {
                        current.push(s[i + 1]);
                        i = i + 1;
                    } else {
                        return Err(SplitError::Unclosed);
                    }
                } else {
                    current.push(c);
                }
            },
            None => {
                if c == '\'' || c == '"' {
                    quote = Some(c);
                    in_word = true;
                } else if text::is_whitespace(c) {
                    if in_word {
                        words.push(current);
                        assert(text::texts(words@) == st.words.push(st.current));
                        current = String::new();
                        in_word = false;
                    }
                } else if c == '\\' {
                    if i + 1 < n {
                        current.push(s[i + 1]);
                        in_word = true;
                        i = i + 1;
                    } else {
                        match rules.lone_backslash {
                            LoneBackslash::Kept => {
                                current.push(c);
                                in_word = true;
                            },
                            LoneBackslash::OpensWord => {
                                in_word = true;
                            },
                            LoneBackslash::Dropped => {},
                        }
                    }
                } else if rules.refuse_syntax && (operator(c) || (c == '$' && i + 1 < n
                    && substitution(s[i + 1]))) {
                    return Err(SplitError::Syntax);
                } else {
                    current.push(c);
                    in_word = true;
                }
            },
        }
        i = i + 1;
    }
    assert(s@.skip(i as int).len() == 0);
    if quote.is_some() {
        return Err(SplitError::Unclosed);
    }
    if in_word {
        words.push(current);
    }
    Ok(words)
}

/// `s` with every single quote closed, escaped and opened again.
pub open spec fn escaped_quotes(s: Seq<char>) -> Seq<char>
    decreases s.len(),
{
    if s.len() == 0 {
        Seq::empty()
    } else if s.last() == '\'' {
        escaped_quotes(s.drop_last()) + seq!['\'', '\\', '\'', '\'']
    } else {
        escaped_quotes(s.drop_last()).push(s.last())
    }
}

/// `s` in single quotes, as a shell reads it back.
pub open spec fn single_quoted(s: Seq<char>) -> Seq<char> {
    seq!['\''] + escaped_quotes(s) + seq!['\'']
}

/// Put `s` in single quotes, as a shell reads it back.
pub fn single_quote(s: &str) -> (r: String)
    ensures
        r@ == single_quoted(s@),
{
    let v = text::chars_of(s);
    let mut r = String::new();
    r.push('\'');
    let mut i: usize = 0;
    assert(r@ =~= seq!['\''] + escaped_quotes(v@.take(0)));
    while i < v.len()
        invariant
            i <= v@.len(),
            v@ == s@,
            r@ == seq!['\''] + escaped_quotes(v@.take(i as int)),
        decreases v@.len() - i,
    {
        assert(v@.take(i + 1).drop_last() =~= v@.take(i as int));
        assert(v@.take(i + 1).last() == v@[i as int]);
        let ghost before = r@;
        if v[i] == '\'' {
            r.push('\'');
            r.push('\\');
            r.push('\'');
            r.push('\'');
            assert(r@ =~= before + seq!['\'', '\\', '\'', '\'']);
        } else {
            r.push(v[i]);
        }
        i = i + 1;
        assert(r@ =~= seq!['\''] + escaped_quotes(v@.take(i as int)));
    }
    assert(v@.take(v@.len() as int) =~= s@);
    r.push('\'');
    assert(r@ =~= single_quoted(s@));
    r
}

proof fn escaped_front(c: char, s: Seq<char>)
    ensures
        escaped_quotes(seq![c] + s) == (if c == '\'' {
            seq!['\'', '\\', '\'', '\'']
        } else {
            seq![c]
        }) + escaped_quotes(s),
    decreases s.len(),
{
    let whole = seq![c] + s;
    if s.len() == 0 {
        assert(whole.drop_last() =~= Seq::<char>::empty());
        assert(escaped_quotes(whole.drop_last()) =~= Seq::<char>::empty());
        assert(whole.last() == c);
        if c == '\'' {
            assert(escaped_quotes(whole) =~= seq!['\'', '\\', '\'', '\''] + escaped_quotes(s));
        } else {
            assert(escaped_quotes(whole) =~= seq![c] + escaped_quotes(s));
        }
    } else {
        escaped_front(c, s.drop_last());
        assert(whole.drop_last() =~= seq![c] + s.drop_last());
        assert(whole.last() == s.last());
        let head = if c == '\'' {
            seq!['\'', '\\', '\'', '\'']
        } else {
            seq![c]
        };
        assert(escaped_quotes(whole) =~= head + escaped_quotes(s));
    }
}

/// Inside an open single quote, escaped text is read as the text itself.
proof fn escaped_is_read(s: Seq<char>, rest: Seq<char>, st: SplitState, rules: SplitRules)
    requires
        st.quote == Some('\''),
        st.in_word,
    ensures
        split_rest(escaped_quotes(s) + seq!['\''] + rest, st, rules) == split_rest(
            rest,
            SplitState { current: st.current + s, quote: None, ..st },
            rules,
        ),
    decreases s.len(),
{
    let line = escaped_quotes(s) + seq!['\''] + rest;
    if s.len() == 0 {
        assert(line.drop_first() =~= rest);
        assert(line[0] == '\'');
        assert(st.current + s =~= st.current);
    } else {
        let c = s[0];
        let tail = s.drop_first();
        assert(seq![c] + tail =~= s);
        escaped_front(c, tail);
        let after = escaped_quotes(tail) + seq!['\''] + rest;
        let next = SplitState { current: st.current.push(c), ..st };
        escaped_is_read(tail, rest, next, rules);
        assert(next.current + tail =~= st.current + s);
        if c == '\'' {
            assert(line =~= seq!['\'', '\\', '\'', '\''] + after);
            let l1 = line.drop_first();
            let closed = SplitState { quote: None, ..st };
            assert(split_rest(line, st, rules) == split_rest(l1, closed, rules));
            assert(l1[0] == '\\' && l1[1] == '\'');
            let l3 = l1.drop_first().drop_first();
            let escaped = with_char(closed, '\'');
            assert(!text::is_space('\\'));
            assert(split_rest(l1, closed, rules) == split_rest(l3, escaped, rules));
            assert(l3[0] == '\'');
            assert(l3.drop_first() =~= after);
            assert(split_rest(l3, escaped, rules) == split_rest(
                after,
                SplitState { quote: Some('\''), in_word: true, ..escaped },
                rules,
            ));
            assert(SplitState { quote: Some('\''), in_word: true, ..escaped } =~= next);
        } else {
            assert(line =~= seq![c] + after);
            assert(line.drop_first() =~= after);
        }
    }
}

/// Quoted text in front of a line adds exactly that text to the word at hand.
pub proof fn quoted_is_read(s: Seq<char>, rest: Seq<char>, st: SplitState, rules: SplitRules)
    requires
        st.quote is None,
    ensures
        split_rest(single_quoted(s) + rest, st, rules) == split_rest(
            rest,
            SplitState { current: st.current + s, in_word: true, ..st },
            rules,
        ),
{
    let line = single_quoted(s) + rest;
    let inside = SplitState { quote: Some('\''), in_word: true, ..st };
    assert(line[0] == '\'');
    assert(line.drop_first() =~= escaped_quotes(s) + seq!['\''] + rest);
    escaped_is_read(s, rest, inside, rules);
    assert(SplitState { current: st.current + s, quote: None, ..inside } =~= SplitState {
        current: st.current + s,
        in_word: true,
        ..st
    });
}

/// Quoted texts in a row, with a blank in front of each.
pub open spec fn quoted_line(args: Seq<Seq<char>>) -> Seq<char>
    decreases args.len(),
{
    if args.len() == 0 {
        Seq::empty()
    } else {
        seq![' '] + single_quoted(args[0]) + quoted_line(args.drop_first())
    }
}

/// A command made of quoted texts is split into exactly these texts,
/// whatever characters they hold.
pub proof fn quoted_line_splits(args: Seq<Seq<char>>, rules: SplitRules)
    ensures
        split_line(quoted_line(args), rules) == Ok::<Seq<Seq<char>>, SplitError>(args),
{
    quoted_line_rest(args, line_start(), rules);
    assert(Seq::<Seq<char>>::empty() + args =~= args);
}

proof fn quoted_line_rest(args: Seq<Seq<char>>, st: SplitState, rules: SplitRules)
    requires
        st.quote is None,
        !st.in_word ==> st.current.len() == 0,
    ensures
        split_rest(quoted_line(args), st, rules) == Ok::<Seq<Seq<char>>, SplitError>(
            word_ended(st).words + args,
        ),
    decreases args.len(),
{
    if args.len() == 0 {
        assert(word_ended(st).words + args =~= word_ended(st).words);
    } else {
        let line = quoted_line(args);
        let tail = quoted_line(args.drop_first());
        assert(line[0] == ' ');
        assert(line.drop_first() =~= single_quoted(args[0]) + tail);
        let ended = word_ended(st);
        assert(split_rest(line, st, rules) == split_rest(line.drop_first(), ended, rules));
        quoted_is_read(args[0], tail, ended, rules);
        let next = SplitState { current: ended.current + args[0], in_word: true, ..ended };
        assert(ended.current =~= Seq::<char>::empty());
        assert(next.current =~= args[0]);
        quoted_line_rest(args.drop_first(), next, rules);
        assert(word_ended(next).words + args.drop_first() =~= ended.words + args);
    }
}

/// A quoted text alone is one word, that text.
pub proof fn quoted_is_one_word(s: Seq<char>, rules: SplitRules)
    ensures
        split_line(single_quoted(s), rules) == Ok::<Seq<Seq<char>>, SplitError>(seq![s]),
{
    quoted_is_read(s, Seq::empty(), line_start(), rules);
    assert(single_quoted(s) + Seq::<char>::empty() =~= single_quoted(s));
    assert(Seq::<char>::empty() + s =~= s);
    assert(Seq::<Seq<char>>::empty().push(s) =~= seq![s]);
}

/// Whether `c` may start a shell variable name.
pub open spec fn starts_name(c: char) -> bool {
    c == '_' || ('a' <= c <= 'z') || ('A' <= c <= 'Z')
}

/// Whether `s` is a shell variable name: letters, digits and underscores,
/// with no digit in front.
pub open spec fn is_variable_name(s: Seq<char>) -> bool {
    s.len() > 0 && starts_name(s[0]) && forall|i: int|
        0 <= i < s.len() ==> starts_name(#[trigger] s[i]) || text::is_digit(s[i])
}

/// Decide whether `s` is a shell variable name.
pub fn variable_name(s: &str) -> (r: bool)
    ensures
        r == is_variable_name(s@),
{
    let v = text::chars_of(s);
    if v.len() == 0 {
        return false;
    }
    let mut i: usize = 0;
    while i < v.len()
        invariant
            i <= v@.len(),
            v@ == s@,
            v@.len() > 0,
            i > 0 ==> starts_name(v@[0]),
            forall|j: int| 0 <= j < i ==> starts_name(#[trigger] v@[j]) || text::is_digit(v@[j]),
        decreases v@.len() - i,
    {
        let c = v[i];
        let letter = c == '_' || ('a' <= c && c <= 'z') || ('A' <= c && c <= 'Z');
        let number = '0' <= c && c <= '9';
        if !(letter || (i > 0 && number)) {
            return false;
        }
        i = i + 1;
    }
    true
}

/// Whether a character stands for itself in a line.
pub open spec fn stands_for_itself(c: char, rules: SplitRules) -> bool {
    &&& !text::is_space(c)
    &&& c != '\'' && c != '"' && c != '\\'
    &&& rules.refuse_syntax ==> c != '|' && c != ';' && c != '`' && c != '>' && c != '<' && c != '&'
        && c != '(' && c != ')' && c != '$'
}

/// Characters that stand for themselves are added to the word at hand.
pub proof fn plain_text_is_read(s: Seq<char>, rest: Seq<char>, st: SplitState, rules: SplitRules)
    requires
        st.quote is None,
        s.len() > 0,
        forall|i: int| 0 <= i < s.len() ==> stands_for_itself(#[trigger] s[i], rules),
    ensures
        split_rest(s + rest, st, rules) == split_rest(
            rest,
            SplitState { current: st.current + s, in_word: true, ..st },
            rules,
        ),
    decreases s.len(),
{
    let line = s + rest;
    assert(line[0] == s[0]);
    assert(stands_for_itself(s[0], rules));
    let next = with_char(st, s[0]);
    assert(line.drop_first() =~= s.drop_first() + rest);
    if s.len() == 1 {
        assert(line.drop_first() =~= rest);
        assert(next.current =~= st.current + s);
    } else {
        assert forall|i: int| 0 <= i < s.drop_first().len() implies stands_for_itself(
            #[trigger] s.drop_first()[i],
            rules,
        ) by {
            assert(s.drop_first()[i] == s[i + 1]);
        }
        plain_text_is_read(s.drop_first(), rest, next, rules);
        assert(next.current + s.drop_first() =~= st.current + s);
    }
}

/// Words of characters that stand for themselves, written with blanks between
/// them, are read back.
pub proof fn plain_words_split(args: Seq<Seq<char>>, rules: SplitRules)
    requires
        forall|i: int, k: int|
            0 <= i < args.len() && 0 <= k < args[i].len() ==> stands_for_itself(
                #[trigger] args[i][k],
                rules,
            ),
        forall|i: int| 0 <= i < args.len() ==> (#[trigger] args[i]).len() > 0,
    ensures
        split_line(text::joined(args, " "@), rules) == Ok::<Seq<Seq<char>>, SplitError>(args),
{
    plain_words_rest(args, line_start(), rules);
    assert(Seq::<Seq<char>>::empty() + args =~= args);
}

proof fn plain_words_rest(args: Seq<Seq<char>>, st: SplitState, rules: SplitRules)
    requires
        st.quote is None,
        !st.in_word,
        st.current.len() == 0,
        forall|i: int, k: int|
            0 <= i < args.len() && 0 <= k < args[i].len() ==> stands_for_itself(
                #[trigger] args[i][k],
                rules,
            ),
        forall|i: int| 0 <= i < args.len() ==> (#[trigger] args[i]).len() > 0,
    ensures
        split_rest(text::joined(args, " "@), st, rules) == Ok::<Seq<Seq<char>>, SplitError>(
            st.words + args,
        ),
    decreases args.len(),
{
    reveal_strlit(" ");
    if args.len() == 0 {
        assert(st.words + args =~= st.words);
    } else {
        let first = args[0];
        let next = SplitState { current: st.current + first, in_word: true, ..st };
        assert(next.current =~= first);
        assert forall|k: int| 0 <= k < first.len() implies stands_for_itself(
            #[trigger] first[k],
            rules,
        ) by {
            assert(stands_for_itself(args[0][k], rules));
        }
        let ended = word_ended(next);
        assert(ended.words =~= st.words.push(first));
        if args.len() == 1 {
            plain_text_is_read(first, Seq::empty(), st, rules);
            assert(first + Seq::<char>::empty() =~= text::joined(args, " "@));
            assert(st.words + args =~= st.words.push(first));
        } else {
            let tail = args.drop_first();
            text::joined_from_the_front(args, " "@);
            let more = text::joined(tail, " "@);
            let rest = " "@ + more;
            assert(text::joined(args, " "@) =~= first + rest);
            plain_text_is_read(first, rest, st, rules);
            assert(rest[0] == ' ');
            assert(rest.drop_first() =~= more);
            assert forall|i: int, k: int| 0 <= i < tail.len() && 0 <= k < tail[i].len() implies stands_for_itself(
            #[trigger] tail[i][k], rules) by {
                assert(tail[i] == args[i + 1]);
                assert(stands_for_itself(args[i + 1][k], rules));
            }
            assert forall|i: int| 0 <= i < tail.len() implies (#[trigger] tail[i]).len() > 0 by {
                assert(tail[i] == args[i + 1]);
            }
            plain_words_rest(tail, ended, rules);
            assert(ended.words + tail =~= st.words + args);
        }
    }
}

/// A shell operator outside of quotes is refused where syntax is, whatever
/// follows it; so is the start of a substitution.
pub proof fn shell_syntax_is_refused(
    before: Seq<char>,
    c: char,
    rest: Seq<char>,
    rules: SplitRules,
)
    requires
        rules.refuse_syntax,
        forall|i: int| 0 <= i < before.len() ==> stands_for_itself(#[trigger] before[i], rules),
        ({
            ||| c == '|'
            ||| c == ';'
            ||| c == '`'
            ||| c == '>'
            ||| c == '<'
            ||| c == '&'
            ||| c == '('
            ||| c == ')'
            ||| c == '$' && rest.len() > 0 && ('a' <= rest[0] <= 'z' || 'A' <= rest[0] <= 'Z'
                || '0' <= rest[0] <= '9' || rest[0] == '_' || rest[0] == '{' || rest[0] == '('
                || rest[0] == '*' || rest[0] == '?' || rest[0] == '#' || rest[0] == '$' || rest[0]
                == '-' || rest[0] == '!' || rest[0] == '@')
        }),
    ensures
        split_line(before + (seq![c] + rest), rules) == Err::<Seq<Seq<char>>, SplitError>(
            SplitError::Syntax,
        ),
{
    let tail = seq![c] + rest;
    assert(tail[0] == c);
    if rest.len() > 0 {
        assert(tail[1] == rest[0]);
    }
    if before.len() > 0 {
        plain_text_is_read(before, tail, line_start(), rules);
    } else {
        assert(before + tail =~= tail);
    }
}

/// Where syntax is not refused, no line is; a dollar sign that starts no
/// substitution stands for itself even where it is.
pub proof fn syntax_is_data_elsewhere(
    s: Seq<char>,
    st: SplitState,
    rules: SplitRules,
    rest: Seq<char>,
)
    ensures
        !rules.refuse_syntax ==> split_rest(s, st, rules) != Err::<Seq<Seq<char>>, SplitError>(
            SplitError::Syntax,
        ),
        st.quote is None && (rest.len() == 0 || rest[0] == ' ') ==> split_rest(
            seq!['$'] + rest,
            st,
            rules,
        ) == split_rest(
            rest,
            SplitState { current: st.current.push('$'), in_word: true, ..st },
            rules,
        ),
    decreases s.len(),
{
    let line = seq!['$'] + rest;
    assert(line.drop_first() =~= rest);
    assert(line[0] == '$');
    if rest.len() > 0 {
        assert(line[1] == rest[0]);
    }
    if s.len() > 0 && !rules.refuse_syntax {
        let c = s[0];
        let tail = s.drop_first();
        match st.quote {
            Some(q) => {
                if c == q {
                    syntax_is_data_elsewhere(tail, SplitState { quote: None, ..st }, rules, rest);
                } else if q == '"' && c == '\\' {
                    if s.len() >= 2 {
                        syntax_is_data_elsewhere(
                            tail.drop_first(),
                            SplitState { current: st.current.push(s[1]), ..st },
                            rules,
                            rest,
                        );
                    }
                } else {
                    syntax_is_data_elsewhere(
                        tail,
                        SplitState { current: st.current.push(c), ..st },
                        rules,
                        rest,
                    );
                }
            },
            None => {
                if c == '\'' || c == '"' {
                    syntax_is_data_elsewhere(
                        tail,
                        SplitState { quote: Some(c), in_word: true, ..st },
                        rules,
                        rest,
                    );
                } else if text::is_space(c) {
                    syntax_is_data_elsewhere(tail, word_ended(st), rules, rest);
                } else if c == '\\' {
                    if s.len() >= 2 {
                        syntax_is_data_elsewhere(
                            tail.drop_first(),
                            with_char(st, s[1]),
                            rules,
                            rest,
                        );
                    } else {
                        syntax_is_data_elsewhere(tail, with_char(st, c), rules, rest);
                        syntax_is_data_elsewhere(
                            tail,
                            SplitState { in_word: true, ..st },
                            rules,
                            rest,
                        );
                        syntax_is_data_elsewhere(tail, st, rules, rest);
                    }
                } else {
                    syntax_is_data_elsewhere(tail, with_char(st, c), rules, rest);
                }
            },
        }
    }
}

/// Text in double quotes is added to the word at hand as it is, blanks and
/// single quotes included, and so is a single character behind a backslash.
pub proof fn quotes_and_escapes_are_read(
    body: Seq<char>,
    c: char,
    rest: Seq<char>,
    st: SplitState,
    rules: SplitRules,
)
    requires
        st.quote is None,
    ensures
        !body.contains('"') && !body.contains('\\') ==> split_rest(
            seq!['"'] + body + seq!['"'] + rest,
            st,
            rules,
        ) == split_rest(
            rest,
            SplitState { current: st.current + body, in_word: true, ..st },
            rules,
        ),
        split_rest(seq!['\\', c] + rest, st, rules) == split_rest(
            rest,
            SplitState { current: st.current.push(c), in_word: true, ..st },
            rules,
        ),
{
    let escaped = seq!['\\', c] + rest;
    assert(escaped[0] == '\\' && escaped[1] == c);
    assert(escaped.drop_first().drop_first() =~= rest);
    if !body.contains('"') && !body.contains('\\') {
        let line = seq!['"'] + body + seq!['"'] + rest;
        assert(line[0] == '"');
        assert(line.drop_first() =~= body + (seq!['"'] + rest));
        let inside = SplitState { quote: Some('"'), in_word: true, ..st };
        double_quoted_is_read(body, rest, inside, rules);
    }
}

proof fn double_quoted_is_read(
    body: Seq<char>,
    rest: Seq<char>,
    st: SplitState,
    rules: SplitRules,
)
    requires
        st.quote == Some('"'),
        !body.contains('"'),
        !body.contains('\\'),
    ensures
        split_rest(body + (seq!['"'] + rest), st, rules) == split_rest(
            rest,
            SplitState { current: st.current + body, quote: None, ..st },
            rules,
        ),
    decreases body.len(),
{
    let line = body + (seq!['"'] + rest);
    if body.len() == 0 {
        assert(line[0] == '"');
        assert(line.drop_first() =~= rest);
        assert(st.current + body =~= st.current);
    } else {
        assert(line[0] == body[0]);
        assert(body[0] != '"' && body[0] != '\\');
        let tail = body.drop_first();
        assert(line.drop_first() =~= tail + (seq!['"'] + rest));
        assert forall|i: int| 0 <= i < tail.len() implies #[trigger] tail[i] != '"' && tail[i]
            != '\\' by {
            assert(tail[i] == body[i + 1]);
        }
        let next = SplitState { current: st.current.push(body[0]), ..st };
        double_quoted_is_read(tail, rest, next, rules);
        assert(next.current + tail =~= st.current + body);
    }
}

/// A quote that is never closed is an error.
pub proof fn open_quotes_are_refused(body: Seq<char>, st: SplitState, rules: SplitRules)
    requires
        st.quote is None,
        !body.contains('\''),
    ensures
        split_rest(seq!['\''] + body, st, rules) == Err::<Seq<Seq<char>>, SplitError>(
            SplitError::Unclosed,
        ),
{
    let line = seq!['\''] + body;
    assert(line[0] == '\'');
    assert(line.drop_first() =~= body);
    never_closed(body, SplitState { quote: Some('\''), in_word: true, ..st }, rules);
}

proof fn never_closed(body: Seq<char>, st: SplitState, rules: SplitRules)
    requires
        st.quote == Some('\''),
        !body.contains('\''),
    ensures
        split_rest(body, st, rules) == Err::<Seq<Seq<char>>, SplitError>(SplitError::Unclosed),
    decreases body.len(),
{
    if body.len() > 0 {
        assert(body[0] != '\'');
        let tail = body.drop_first();
        assert forall|i: int| 0 <= i < tail.len() implies #[trigger] tail[i] != '\'' by {
            assert(tail[i] == body[i + 1]);
        }
        never_closed(tail, SplitState { current: st.current.push(body[0]), ..st }, rules);
    }
}

/// Names of shell variables start with a letter or an underscore, and go on
/// with letters, digits and underscores of ASCII.
pub proof fn variable_names_grow(s: Seq<char>, c: char)
    ensures
        !is_variable_name(Seq::empty()),
        is_variable_name(seq![c]) <==> c == '_' || 'a' <= c <= 'z' || 'A' <= c <= 'Z',
        s.len() > 0 ==> (is_variable_name(s.push(c)) <==> is_variable_name(s) && (c == '_' || 'a'
            <= c <= 'z' || 'A' <= c <= 'Z' || '0' <= c <= '9')),
{
    if s.len() > 0 {
        let t = s.push(c);
        assert(t[0] == s[0]);
        assert(t[s.len() as int] == c);
        if is_variable_name(t) {
            assert forall|i: int| 0 <= i < s.len() implies starts_name(#[trigger] s[i])
                || text::is_digit(s[i]) by {
                assert(t[i] == s[i]);
            }
        }
    }
}

/// Between double quotes a character behind a backslash stands for itself, a
/// quote too; between single quotes a backslash does.
pub proof fn escapes_in_quotes_are_read(
    c: char,
    rest: Seq<char>,
    st: SplitState,
    rules: SplitRules,
)
    ensures
        st.quote == Some('"') ==> split_rest(seq!['\\', c] + rest, st, rules) == split_rest(
            rest,
            SplitState { current: st.current.push(c), ..st },
            rules,
        ),
        st.quote == Some('\'') ==> split_rest(seq!['\\'] + rest, st, rules) == split_rest(
            rest,
            SplitState { current: st.current.push('\\'), ..st },
            rules,
        ),
{
    let escaped = seq!['\\', c] + rest;
    assert(escaped[0] == '\\' && escaped[1] == c);
    assert(escaped.drop_first().drop_first() =~= rest);
    let kept = seq!['\\'] + rest;
    assert(kept[0] == '\\');
    assert(kept.drop_first() =~= rest);
}

} // verus!
