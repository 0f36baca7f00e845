//! Splitting the raw argument text that a user types into a list of
//! arguments, without a shell: white space separates arguments, single or
//! double quotes group them, and a backslash escapes only a backslash or a
//! quote, so Windows paths keep their backslashes.

use vstd::prelude::*;
use crate::split::{lemma_words_shape, words};
use crate::text::{chars_of, is_space, is_whitespace, push_char};

verus! {

/// A quote character that opens or closes a quoted run.
pub open spec fn is_quote(c: char) -> bool {
    c == '"' || c == '\''
}

/// A character that a preceding backslash escapes.
pub open spec fn is_escapable(c: char) -> bool {
    c == '\\' || c == '"' || c == '\''
}

/// The argument words of `s`, given the open quote, the argument being built
/// and the arguments already complete; `None` where a quote is left open.
pub open spec fn scan_raw_args(
    s: Seq<char>,
    quote: Option<char>,
    current: Seq<char>,
    args: Seq<Seq<char>>,
) -> Option<Seq<Seq<char>>>
    decreases s.len(),
{
    if s.len() == 0 {
        if quote is Some {
            None
        } else if current.len() > 0 {
            Some(args.push(current))
        } else {
            Some(args)
        }
    } else {
        let c = s[0];
        let rest = s.drop_first();
        if is_quote(c) && quote == Some(c) {
            scan_raw_args(rest, None, current, args)
        } else if is_quote(c) && quote is None {
            scan_raw_args(rest, Some(c), current, args)
        } else if c == '\\' && rest.len() > 0 && is_escapable(rest[0]) {
            scan_raw_args(rest.drop_first(), quote, current.push(rest[0]), args)
        } else if is_space(c) && quote is None {
            scan_raw_args(
                rest,
                quote,
                Seq::empty(),
                if current.len() > 0 {
                    args.push(current)
                } else {
                    args
                },
            )
        } else {
            scan_raw_args(rest, quote, current.push(c), args)
        }
    }
}

/// The arguments that the text `s` denotes, or `None` where it leaves a quote open.
pub open spec fn raw_args(s: Seq<char>) -> Option<Seq<Seq<char>>> {
    scan_raw_args(s, None, Seq::empty(), Seq::empty())
}

/// Splits raw argument text into arguments; fails on an unclosed quote.
pub fn parse_raw_args(input: &str) -> (r: Result<Vec<String>, String>)
    ensures
        match r {
            Ok(args) => raw_args(input@) == Some(args.deep_view()),
            Err(e) => raw_args(input@) is None && e@ == "Raw arguments contain an unclosed quote"@,
        },
{
    let chars = chars_of(input);
    let ghost s = chars@;
    let mut args: Vec<String> = Vec::new();
    let mut current = String::new();
    let mut quote: Option<char> = None;
    let mut i: usize = 0;
    assert(s.skip(0) == s);
    assert(args.deep_view() =~= Seq::<Seq<char>>::empty());
    while i < chars.len()
        invariant
            s == chars@,
            s == input@,
            i <= s.len(),
            scan_raw_args(s.skip(i as int), quote, current@, args.deep_view()) == raw_args(s),
        decreases s.len() - i,
    {
        let c = chars[i];
        let ghost rest = s.skip(i as int).drop_first();
        assert(s.skip(i as int)[0] == c);
        assert(rest == s.skip(i + 1));
        if (c == '"' || c == '\'') && quote == Some(c) {
            quote = None;
            i += 1;
        } else if (c == '"' || c == '\'') && quote.is_none() {
            quote = Some(c);
            i += 1;
        } else if c == '\\' && i + 1 < chars.len() && (chars[i + 1] == '\\' || chars[i + 1] == '"'
            || chars[i + 1] == '\'') {
            assert(rest[0] == chars@[i + 1]);
            assert(rest.drop_first() == s.skip(i + 2));
            push_char(&mut current, chars[i + 1]);
            i += 2;
        } else if is_whitespace(c) && quote.is_none() {
            if !current.as_str().is_empty() {
                let ghost before = args.deep_view();
                args.push(current);
                assert(args.deep_view() =~= before.push(current@));
                current = String::new();
            } else {
                current = String::new();
            }
            i += 1;
        } else {
            push_char(&mut current, c);
            i += 1;
        }
    }
    assert(s.skip(i as int) =~= Seq::<char>::empty());
    if quote.is_some() {
        return Err(String::from_str("Raw arguments contain an unclosed quote"));
    }
    if !current.as_str().is_empty() {
        let ghost before = args.deep_view();
        args.push(current);
        assert(args.deep_view() =~= before.push(current@));
    }
    Ok(args)
}


/// How an argument is written inside double quotes: each backslash and each
/// double quote gets a backslash in front of it.
pub open spec fn escape_in_double_quotes(a: Seq<char>) -> Seq<char>
    decreases a.len(),
{
    if a.len() == 0 {
        Seq::empty()
    } else {
        let c = a[0];
        (if c == '\\' || c == '"' {
            seq!['\\', c]
        } else {
            seq![c]
        }) + escape_in_double_quotes(a.drop_first())
    }
}

/// Arguments written out as raw text: each in double quotes, with its
/// backslashes and double quotes escaped, joined by single spaces.
pub open spec fn quoted_args_text(args: Seq<Seq<char>>) -> Seq<char>
    decreases args.len(),
{
    if args.len() == 0 {
        Seq::empty()
    } else if args.len() == 1 {
        seq!['"'] + escape_in_double_quotes(args[0]) + seq!['"']
    } else {
        seq!['"'] + escape_in_double_quotes(args[0]) + seq!['"', ' '] + quoted_args_text(
            args.drop_first(),
        )
    }
}

/// Arguments written out as raw text: each in double quotes as it is,
/// joined by single spaces.
pub open spec fn plainly_quoted_args_text(args: Seq<Seq<char>>) -> Seq<char>
    decreases args.len(),
{
    if args.len() == 0 {
        Seq::empty()
    } else if args.len() == 1 {
        seq!['"'] + args[0] + seq!['"']
    } else {
        seq!['"'] + args[0] + seq!['"', ' '] + plainly_quoted_args_text(args.drop_first())
    }
}

/// Whether `a` holds no backslash and no double quote.
pub open spec fn needs_no_escape(a: Seq<char>) -> bool {
    forall|i: int| 0 <= i < a.len() ==> #[trigger] a[i] != '\\' && a[i] != '"'
}

proof fn lemma_escape_plain(a: Seq<char>)
    requires
        needs_no_escape(a),
    ensures
        escape_in_double_quotes(a) == a,
    decreases a.len(),
{
    if a.len() > 0 {
        let tail = a.drop_first();
        assert(needs_no_escape(tail)) by {
            assert forall|i: int| 0 <= i < tail.len() implies #[trigger] tail[i] != '\\' && tail[i]
                != '"' by {
                assert(tail[i] == a[i + 1]);
            }
        }
        lemma_escape_plain(tail);
        assert(a[0] != '\\' && a[0] != '"');
        assert(seq![a[0]] + tail == a);
    }
}

proof fn lemma_plainly_quoted(args: Seq<Seq<char>>)
    requires
        forall|i: int| 0 <= i < args.len() ==> needs_no_escape(#[trigger] args[i]),
    ensures
        plainly_quoted_args_text(args) == quoted_args_text(args),
    decreases args.len(),
{
    if args.len() > 0 {
        lemma_escape_plain(args[0]);
        let rest = args.drop_first();
        assert forall|i: int| 0 <= i < rest.len() implies needs_no_escape(#[trigger] rest[i]) by {
            assert(rest[i] == args[i + 1]);
        }
        lemma_plainly_quoted(rest);
    }
}

proof fn lemma_scan_escaped(a: Seq<char>, t: Seq<char>, current: Seq<char>, args: Seq<Seq<char>>)
    ensures
        scan_raw_args(escape_in_double_quotes(a) + t, Some('"'), current, args) == scan_raw_args(
            t,
            Some('"'),
            current + a,
            args,
        ),
    decreases a.len(),
{
    if a.len() == 0 {
        assert(escape_in_double_quotes(a) + t == t);
        assert(current + a == current);
    } else {
        let c = a[0];
        let tail = a.drop_first();
        lemma_scan_escaped(tail, t, current.push(c), args);
        assert(current.push(c) + tail == current + a);
        let s = escape_in_double_quotes(a) + t;
        if c == '\\' || c == '"' {
            assert(s == seq!['\\', c] + (escape_in_double_quotes(tail) + t));
            assert(s.drop_first().drop_first() == escape_in_double_quotes(tail) + t);
        } else {
            assert(s == seq![c] + (escape_in_double_quotes(tail) + t));
            assert(s.drop_first() == escape_in_double_quotes(tail) + t);
        }
    }
}

proof fn lemma_scan_quoted(args: Seq<Seq<char>>, done: Seq<Seq<char>>)
    requires
        forall|i: int| 0 <= i < args.len() ==> (#[trigger] args[i]).len() > 0,
    ensures
        scan_raw_args(quoted_args_text(args), None, Seq::empty(), done) == Some(done + args),
    decreases args.len(),
{
    let e = Seq::<char>::empty();
    if args.len() == 0 {
        assert(done + args == done);
    } else {
        let a = args[0];
        let rest = args.drop_first();
        assert(a.len() > 0);
        assert(Seq::<char>::empty() + a == a);
        assert(is_space(' '));
        let s = quoted_args_text(args);
        if args.len() == 1 {
            let tail = seq!['"'];
            assert(s == seq!['"'] + (escape_in_double_quotes(a) + tail));
            assert(s.drop_first() == escape_in_double_quotes(a) + tail);
            lemma_scan_escaped(a, tail, e, done);
            assert(scan_raw_args(s, None, e, done) == scan_raw_args(
                s.drop_first(),
                Some('"'),
                e,
                done,
            ));
            assert(tail.drop_first() =~= e);
            assert(scan_raw_args(tail, Some('"'), a, done) == scan_raw_args(e, None, a, done));
            assert(done + args =~= done.push(a));
        } else {
            assert forall|i: int| 0 <= i < rest.len() implies (#[trigger] rest[i]).len() > 0 by {
                assert(rest[i] == args[i + 1]);
            }
            lemma_scan_quoted(rest, done.push(a));
            assert(done.push(a) + rest == done + args);
            let tail = seq!['"', ' '] + quoted_args_text(rest);
            assert(s == seq!['"'] + (escape_in_double_quotes(a) + tail));
            assert(s.drop_first() == escape_in_double_quotes(a) + tail);
            lemma_scan_escaped(a, tail, e, done);
            assert(tail.drop_first().drop_first() == quoted_args_text(rest));
            assert(tail[0] == '"');
            assert(tail.drop_first()[0] == ' ');
            assert(scan_raw_args(s, None, e, done) == scan_raw_args(
                s.drop_first(),
                Some('"'),
                e,
                done,
            ));
            assert(scan_raw_args(tail, Some('"'), a, done) == scan_raw_args(
                tail.drop_first(),
                None,
                a,
                done,
            ));
            assert(scan_raw_args(tail.drop_first(), None, a, done) == scan_raw_args(
                quoted_args_text(rest),
                None,
                e,
                done.push(a),
            ));
        }
    }
}

/// Quoting round trip: arguments written in double quotes, with their
/// backslashes and double quotes escaped, parse back to the same arguments,
/// whatever white space or quotes they hold. Empty arguments are left out,
/// since the parser never yields an empty argument.
pub proof fn law_quoted_args_round_trip(args: Seq<Seq<char>>)
    requires
        forall|i: int| 0 <= i < args.len() ==> (#[trigger] args[i]).len() > 0,
    ensures
        raw_args(quoted_args_text(args)) == Some(args),
{
    lemma_scan_quoted(args, Seq::empty());
    assert(Seq::<Seq<char>>::empty() + args == args);
}

/// Arguments without backslashes or double quotes, each put in double
/// quotes and joined by single spaces, parse back to the same arguments.
pub proof fn law_plainly_quoted_args_round_trip(args: Seq<Seq<char>>)
    requires
        forall|i: int| 0 <= i < args.len() ==> (#[trigger] args[i]).len() > 0,
        forall|i: int| 0 <= i < args.len() ==> needs_no_escape(#[trigger] args[i]),
    ensures
        raw_args(plainly_quoted_args_text(args)) == Some(args),
{
    lemma_plainly_quoted(args);
    law_quoted_args_round_trip(args);
}

proof fn lemma_scan_nonempty(
    s: Seq<char>,
    quote: Option<char>,
    current: Seq<char>,
    done: Seq<Seq<char>>,
)
    requires
        forall|i: int| 0 <= i < done.len() ==> (#[trigger] done[i]).len() > 0,
    ensures
        scan_raw_args(s, quote, current, done) matches Some(args) ==> forall|i: int|
            0 <= i < args.len() ==> (#[trigger] args[i]).len() > 0,
    decreases s.len(),
{
    if s.len() > 0 {
        let c = s[0];
        let rest = s.drop_first();
        if is_quote(c) && quote == Some(c) {
            lemma_scan_nonempty(rest, None, current, done);
        } else if is_quote(c) && quote is None {
            lemma_scan_nonempty(rest, Some(c), current, done);
        } else if c == '\\' && rest.len() > 0 && is_escapable(rest[0]) {
            lemma_scan_nonempty(rest.drop_first(), quote, current.push(rest[0]), done);
        } else if is_space(c) && quote is None {
            if current.len() > 0 {
                let next = done.push(current);
                assert forall|i: int| 0 <= i < next.len() implies (#[trigger] next[i]).len() > 0 by {
                    if i < done.len() {
                        assert(next[i] == done[i]);
                    }
                }
                lemma_scan_nonempty(rest, quote, Seq::empty(), next);
            } else {
                lemma_scan_nonempty(rest, quote, Seq::empty(), done);
            }
        } else {
            lemma_scan_nonempty(rest, quote, current.push(c), done);
        }
    } else if quote is None && current.len() > 0 {
        let next = done.push(current);
        assert forall|i: int| 0 <= i < next.len() implies (#[trigger] next[i]).len() > 0 by {
            if i < done.len() {
                assert(next[i] == done[i]);
            }
        }
    }
}

/// The parser never yields an empty argument: empty quotes and runs of
/// white space produce nothing.
pub proof fn law_parsed_args_are_nonempty(s: Seq<char>)
    ensures
        raw_args(s) matches Some(args) ==> forall|i: int|
            0 <= i < args.len() ==> (#[trigger] args[i]).len() > 0,
{
    lemma_scan_nonempty(s, None, Seq::empty(), Seq::empty());
}


/// Whether `s` holds no quote and no backslash.
pub open spec fn is_plain_text(s: Seq<char>) -> bool {
    forall|i: int| 0 <= i < s.len() ==> !is_quote(#[trigger] s[i]) && s[i] != '\\'
}

/// The argument being built and the arguments complete after plain text `p`.
spec fn plain_state(p: Seq<char>) -> (Seq<char>, Seq<Seq<char>>) {
    let w = words(p);
    if p.len() > 0 && !is_space(p.last()) {
        (w.last(), w.drop_last())
    } else {
        (Seq::empty(), w)
    }
}

proof fn lemma_scan_plain(s: Seq<char>, i: int)
    requires
        is_plain_text(s),
        0 <= i <= s.len(),
    ensures
        scan_raw_args(s.skip(i), None, plain_state(s.take(i)).0, plain_state(s.take(i)).1) == Some(
            words(s),
        ),
    decreases s.len() - i,
{
    if i == s.len() {
        assert(s.take(i) == s);
        assert(s.skip(i) =~= Seq::<char>::empty());
        lemma_words_shape(s);
        let w = words(s);
        if s.len() > 0 && !is_space(s.last()) {
            assert(w.drop_last().push(w.last()) == w);
        }
    } else {
        lemma_scan_plain(s, i + 1);
        let p = s.take(i);
        let q = s.take(i + 1);
        let c = s[i];
        assert(q.drop_last() == p);
        assert(q.last() == c);
        assert(s.skip(i)[0] == c);
        assert(s.skip(i).drop_first() == s.skip(i + 1));
        assert(!is_quote(c) && c != '\\');
        lemma_words_shape(p);
        let w = words(p);
        let (cur, acc) = plain_state(p);
        if is_space(c) {
            assert(words(q) == w);
            if p.len() > 0 && !is_space(p.last()) {
                assert(acc.push(cur) == w);
            }
        } else if i >= 1 && !is_space(s[i - 1]) {
            assert(q[q.len() - 2] == s[i - 1]);
            assert(p.last() == s[i - 1]);
            assert(words(q) == w.update(w.len() - 1, w.last().push(c)));
            assert(words(q).last() == cur.push(c));
            assert(words(q).drop_last() =~= acc);
        } else {
            if i >= 1 {
                assert(q[q.len() - 2] == s[i - 1]);
                assert(p.last() == s[i - 1]);
            }
            assert(words(q) == w.push(seq![c]));
            assert(cur.push(c) =~= seq![c]);
            assert(words(q).drop_last() =~= w);
        }
    }
}

/// Text without quotes or backslashes parses to its white-space separated
/// words.
pub proof fn law_plain_text_parses_to_words(s: Seq<char>)
    requires
        is_plain_text(s),
    ensures
        raw_args(s) == Some(words(s)),
{
    lemma_scan_plain(s, 0);
    assert(s.skip(0) == s);
    assert(s.take(0) =~= Seq::<char>::empty());
}

/// The number of double quotes in `s`.
pub open spec fn double_quote_count(s: Seq<char>) -> nat
    decreases s.len(),
{
    if s.len() == 0 {
        0
    } else {
        (if s[0] == '"' {
            1nat
        } else {
            0nat
        }) + double_quote_count(s.drop_first())
    }
}

/// Whether `s` holds no single quote and no backslash.
pub open spec fn has_only_double_quotes(s: Seq<char>) -> bool {
    forall|i: int| 0 <= i < s.len() ==> #[trigger] s[i] != '\'' && s[i] != '\\'
}

proof fn lemma_scan_quote_parity(
    s: Seq<char>,
    quote: Option<char>,
    current: Seq<char>,
    args: Seq<Seq<char>>,
)
    requires
        has_only_double_quotes(s),
        quote is None || quote == Some('"'),
    ensures
        scan_raw_args(s, quote, current, args) is None <==> ((quote is Some) != (
        double_quote_count(s) % 2 == 1)),
    decreases s.len(),
{
    if s.len() > 0 {
        let c = s[0];
        let rest = s.drop_first();
        assert(has_only_double_quotes(rest)) by {
            assert forall|i: int| 0 <= i < rest.len() implies #[trigger] rest[i] != '\'' && rest[i]
                != '\\' by {
                assert(rest[i] == s[i + 1]);
            }
        }
        assert(c != '\'' && c != '\\');
        if c == '"' {
            if quote is Some {
                lemma_scan_quote_parity(rest, None, current, args);
            } else {
                lemma_scan_quote_parity(rest, Some('"'), current, args);
            }
        } else if is_space(c) && quote is None {
            lemma_scan_quote_parity(
                rest,
                quote,
                Seq::empty(),
                if current.len() > 0 {
                    args.push(current)
                } else {
                    args
                },
            );
        } else {
            lemma_scan_quote_parity(rest, quote, current.push(c), args);
        }
    }
}

/// Without single quotes or backslashes, parsing fails exactly when the
/// double quotes are odd in number.
pub proof fn law_unbalanced_double_quotes_fail(s: Seq<char>)
    requires
        has_only_double_quotes(s),
    ensures
        raw_args(s) is None <==> double_quote_count(s) % 2 == 1,
{
    lemma_scan_quote_parity(s, None, Seq::empty(), Seq::empty());
}


proof fn lemma_scan_word(p: Seq<char>, t: Seq<char>, current: Seq<char>, args: Seq<Seq<char>>)
    requires
        forall|i: int| 0 <= i < p.len() ==> !is_quote(#[trigger] p[i]) && p[i] != '\\' && !is_space(
            p[i],
        ),
    ensures
        scan_raw_args(p + t, None, current, args) == scan_raw_args(t, None, current + p, args),
    decreases p.len(),
{
    if p.len() == 0 {
        assert(p + t == t);
        assert(current + p == current);
    } else {
        let tail = p.drop_first();
        assert forall|i: int| 0 <= i < tail.len() implies !is_quote(#[trigger] tail[i]) && tail[i]
            != '\\' && !is_space(tail[i]) by {
            assert(tail[i] == p[i + 1]);
        }
        lemma_scan_word(tail, t, current.push(p[0]), args);
        assert((p + t).drop_first() == tail + t);
        assert((p + t)[0] == p[0]);
        assert(current.push(p[0]) + tail == current + p);
        assert(!is_quote(p[0]) && p[0] != '\\' && !is_space(p[0]));
    }
}

proof fn lemma_scan_quoted_run(
    a: Seq<char>,
    q: char,
    t: Seq<char>,
    current: Seq<char>,
    args: Seq<Seq<char>>,
)
    requires
        is_quote(q),
        forall|i: int| 0 <= i < a.len() ==> #[trigger] a[i] != q && a[i] != '\\',
    ensures
        scan_raw_args(a + t, Some(q), current, args) == scan_raw_args(t, Some(q), current + a, args),
    decreases a.len(),
{
    if a.len() == 0 {
        assert(a + t == t);
        assert(current + a == current);
    } else {
        let tail = a.drop_first();
        assert forall|i: int| 0 <= i < tail.len() implies #[trigger] tail[i] != q && tail[i]
            != '\\' by {
            assert(tail[i] == a[i + 1]);
        }
        lemma_scan_quoted_run(tail, q, t, current.push(a[0]), args);
        assert((a + t).drop_first() == tail + t);
        assert((a + t)[0] == a[0]);
        assert(current.push(a[0]) + tail == current + a);
        assert(a[0] != q && a[0] != '\\');
    }
}

/// Quotes join adjacent text, for both quote characters: a word `p`
/// followed by a run `a` in quotes `q` (single or double) parses to the
/// one argument `p + a`, whatever white space or other quotes `a` holds.
pub proof fn law_quotes_join_adjacent_text(p: Seq<char>, q: char, a: Seq<char>)
    requires
        is_quote(q),
        forall|i: int| 0 <= i < p.len() ==> !is_quote(#[trigger] p[i]) && p[i] != '\\' && !is_space(
            p[i],
        ),
        forall|i: int| 0 <= i < a.len() ==> #[trigger] a[i] != q && a[i] != '\\',
        p.len() + a.len() > 0,
    ensures
        raw_args(p + seq![q] + a + seq![q]) == Some(seq![p + a]),
{
    let e = Seq::<char>::empty();
    let none = Seq::<Seq<char>>::empty();
    let rest = seq![q] + a + seq![q];
    assert(p + seq![q] + a + seq![q] == p + rest);
    lemma_scan_word(p, rest, e, none);
    assert(e + p == p);
    assert(rest[0] == q);
    assert(rest.drop_first() == a + seq![q]);
    lemma_scan_quoted_run(a, q, seq![q], p, none);
    assert(seq![q].drop_first() =~= e);
    assert(scan_raw_args(seq![q], Some(q), p + a, none) == scan_raw_args(e, None, p + a, none));
    assert(none.push(p + a) == seq![p + a]);
}

} // verus!
