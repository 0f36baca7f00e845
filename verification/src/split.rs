//! Splitting character sequences: at a separator (`str::split`), at white
//! space (`str::split_whitespace`) and into lines (`str::lines`). The
//! executable versions return the pieces as index ranges into the text.

use vstd::prelude::*;
use crate::text::{is_space, is_whitespace, push_char};

verus! {

/// The pieces of `s` between occurrences of `sep` (`str::split` with a
/// character): one more piece than there are separators.
pub open spec fn split_on(s: Seq<char>, sep: char) -> Seq<Seq<char>>
    decreases s.len(),
{
    if s.len() == 0 {
        seq![Seq::empty()]
    } else {
        let p = split_on(s.drop_last(), sep);
        if s.last() == sep {
            p.push(Seq::empty())
        } else {
            p.update(p.len() - 1, p.last().push(s.last()))
        }
    }
}

/// The maximal runs of non-white-space characters of `s`
/// (`str::split_whitespace`).
pub open spec fn words(s: Seq<char>) -> Seq<Seq<char>>
    decreases s.len(),
{
    if s.len() == 0 {
        Seq::empty()
    } else {
        let w = words(s.drop_last());
        let c = s.last();
        if is_space(c) {
            w
        } else if s.len() >= 2 && !is_space(s[s.len() - 2]) {
            w.update(w.len() - 1, w.last().push(c))
        } else {
            w.push(seq![c])
        }
    }
}

/// The pieces joined with a single space between them (`join(" ")`).
pub open spec fn join_with_space(pieces: Seq<Seq<char>>) -> Seq<char>
    decreases pieces.len(),
{
    if pieces.len() == 0 {
        Seq::empty()
    } else if pieces.len() == 1 {
        pieces[0]
    } else {
        join_with_space(pieces.drop_last()) + seq![' '] + pieces.last()
    }
}

/// A line without the carriage return of a `\r\n` ending.
pub open spec fn strip_carriage_return(line: Seq<char>) -> Seq<char> {
    if line.len() > 0 && line.last() == '\r' {
        line.drop_last()
    } else {
        line
    }
}

/// The lines of `s` (`str::lines`): split at `\n`, a `\r` before the `\n`
/// dropped, and no empty last line after a final line ending.
pub open spec fn lines(s: Seq<char>) -> Seq<Seq<char>> {
    let p = split_on(s, '\n');
    let n = p.len() as int;
    let ended = p.take(n - 1).map_values(|l: Seq<char>| strip_carriage_return(l));
    if p[n - 1].len() == 0 {
        ended
    } else {
        ended.push(p[n - 1])
    }
}

/// The text of each range of `s`.
pub open spec fn ranges_text(s: Seq<char>, r: Seq<(usize, usize)>) -> Seq<Seq<char>> {
    r.map_values(|p: (usize, usize)| s.subrange(p.0 as int, p.1 as int))
}

/// Every range lies within `lo..hi`.
pub open spec fn ranges_within(r: Seq<(usize, usize)>, lo: int, hi: int) -> bool {
    forall|k: int| 0 <= k < r.len() ==> lo <= (#[trigger] r[k]).0 <= r[k].1 <= hi
}

/// The pieces of `v[lo..hi]` between occurrences of `sep`.
pub fn split_ranges(v: &Vec<char>, lo: usize, hi: usize, sep: char) -> (r: Vec<(usize, usize)>)
    requires
        lo <= hi <= v@.len(),
    ensures
        ranges_within(r@, lo as int, hi as int),
        ranges_text(v@, r@) == split_on(v@.subrange(lo as int, hi as int), sep),
{
    let mut r: Vec<(usize, usize)> = Vec::new();
    r.push((lo, lo));
    let mut i = lo;
    assert(v@.subrange(lo as int, lo as int) =~= Seq::<char>::empty());
    assert(ranges_text(v@, r@) =~= split_on(v@.subrange(lo as int, lo as int), sep));
    while i < hi
        invariant
            lo <= i <= hi <= v@.len(),
            r@.len() >= 1,
            r@.last().1 == i,
            ranges_within(r@, lo as int, i as int),
            ranges_text(v@, r@) == split_on(v@.subrange(lo as int, i as int), sep),
        decreases hi - i,
    {
        let ghost old_r = r@;
        let ghost s = v@.subrange(lo as int, i + 1);
        assert(s.drop_last() == v@.subrange(lo as int, i as int));
        assert(s.last() == v@[i as int]);
        if v[i] == sep {
            r.push((i + 1, i + 1));
            assert(v@.subrange(i + 1, i + 1) =~= Seq::<char>::empty());
            assert(ranges_text(v@, r@) =~= ranges_text(v@, old_r).push(Seq::empty()));
        } else {
            let k = r.len() - 1;
            let a = r[k].0;
            r.set(k, (a, i + 1));
            assert(v@.subrange(a as int, i + 1) =~= v@.subrange(a as int, i as int).push(v@[i as int]));
            assert(ranges_text(v@, r@) =~= ranges_text(v@, old_r).update(
                k as int,
                ranges_text(v@, old_r)[k as int].push(v@[i as int]),
            ));
        }
        i += 1;
    }
    r
}

/// The words of `v[lo..hi]`.
pub fn word_ranges(v: &Vec<char>, lo: usize, hi: usize) -> (r: Vec<(usize, usize)>)
    requires
        lo <= hi <= v@.len(),
    ensures
        ranges_within(r@, lo as int, hi as int),
        ranges_text(v@, r@) == words(v@.subrange(lo as int, hi as int)),
{
    let mut r: Vec<(usize, usize)> = Vec::new();
    let mut i = lo;
    assert(ranges_text(v@, r@) =~= words(v@.subrange(lo as int, lo as int)));
    while i < hi
        invariant
            lo <= i <= hi <= v@.len(),
            ranges_within(r@, lo as int, i as int),
            ranges_text(v@, r@) == words(v@.subrange(lo as int, i as int)),
            i > lo && !is_space(v@[i - 1]) ==> r@.len() > 0 && r@.last().1 == i,
        decreases hi - i,
    {
        let ghost old_r = r@;
        let ghost s = v@.subrange(lo as int, i + 1);
        assert(s.drop_last() == v@.subrange(lo as int, i as int));
        assert(s.last() == v@[i as int]);
        if is_whitespace(v[i]) {
        } else if i > lo && !is_whitespace(v[i - 1]) {
            assert(s[s.len() - 2] == v@[i - 1]);
            let k = r.len() - 1;
            let a = r[k].0;
            r.set(k, (a, i + 1));
            assert(v@.subrange(a as int, i + 1) =~= v@.subrange(a as int, i as int).push(v@[i as int]));
            assert(ranges_text(v@, r@) =~= ranges_text(v@, old_r).update(
                k as int,
                ranges_text(v@, old_r)[k as int].push(v@[i as int]),
            ));
        } else {
            if i > lo {
                assert(s[s.len() - 2] == v@[i - 1]);
            }
            r.push((i, i + 1));
            assert(v@.subrange(i as int, i + 1) =~= seq![v@[i as int]]);
            assert(ranges_text(v@, r@) =~= ranges_text(v@, old_r).push(seq![v@[i as int]]));
        }
        i += 1;
    }
    r
}

/// The lines of `v`.
pub fn line_ranges(v: &Vec<char>) -> (r: Vec<(usize, usize)>)
    ensures
        ranges_within(r@, 0, v@.len() as int),
        ranges_text(v@, r@) == lines(v@),
{
    let pieces = split_ranges(v, 0, v.len(), '\n');
    assert(v@.subrange(0, v@.len() as int) == v@);
    let ghost p = split_on(v@, '\n');
    let n = pieces.len();
    assert(n >= 1) by {
        assert(ranges_text(v@, pieces@).len() == n);
        assert(p.len() >= 1) by {
            lemma_split_on_nonempty(v@, '\n');
        }
    }
    let mut r: Vec<(usize, usize)> = Vec::new();
    let mut k: usize = 0;
    while k + 1 < n
        invariant
            n == pieces@.len(),
            n >= 1,
            k + 1 <= n,
            ranges_within(pieces@, 0, v@.len() as int),
            ranges_text(v@, pieces@) == p,
            ranges_within(r@, 0, v@.len() as int),
            ranges_text(v@, r@) == p.take(k as int).map_values(
                |l: Seq<char>| strip_carriage_return(l),
            ),
        decreases n - k,
    {
        let ghost old_r = r@;
        assert(p.len() == n);
        assert(ranges_text(v@, old_r).len() == old_r.len());
        assert(old_r.len() == k);
        let (a, b) = pieces[k];
        assert(p[k as int] == v@.subrange(a as int, b as int));
        if b > a && v[b - 1] == '\r' {
            r.push((a, b - 1));
            assert(v@.subrange(a as int, b - 1) =~= v@.subrange(a as int, b as int).drop_last());
        } else {
            r.push((a, b));
            if b > a {
                assert(p[k as int].last() == v@[b - 1]);
            }
        }
        assert(ranges_text(v@, r@)[k as int] == strip_carriage_return(p[k as int]));
        assert forall|j: int| 0 <= j < k implies ranges_text(v@, r@)[j] == strip_carriage_return(
            p[j],
        ) by {
            assert(r@[j] == old_r[j]);
            assert(ranges_text(v@, old_r)[j] == p.take(k as int).map_values(
                |l: Seq<char>| strip_carriage_return(l),
            )[j]);
        }
        assert(ranges_text(v@, r@) =~= p.take(k + 1).map_values(
            |l: Seq<char>| strip_carriage_return(l),
        ));
        k += 1;
    }
    let (a, b) = pieces[n - 1];
    assert(p[n - 1] == v@.subrange(a as int, b as int));
    if b > a {
        let ghost old_r = r@;
        r.push((a, b));
        assert(ranges_text(v@, r@) =~= ranges_text(v@, old_r).push(p[n - 1]));
    }
    r
}

/// The first piece of a split begins with the text's first character when
/// that is not the separator.
pub proof fn lemma_split_on_first(s: Seq<char>, sep: char)
    requires
        s.len() > 0,
        s[0] != sep,
    ensures
        split_on(s, sep).len() > 0,
        split_on(s, sep)[0].len() > 0,
        split_on(s, sep)[0][0] == s[0],
    decreases s.len(),
{
    lemma_split_on_nonempty(s, sep);
    if s.len() == 1 {
        let e = Seq::<char>::empty();
        assert(s.drop_last() =~= e);
        assert(split_on(e, sep) == seq![e]);
        assert(split_on(s, sep) == seq![e].update(0, e.push(s[0])));
        assert(e.push(s[0])[0] == s[0]);
    } else {
        let front = s.drop_last();
        assert(front[0] == s[0]);
        lemma_split_on_first(front, sep);
        let p = split_on(front, sep);
        if s.last() == sep {
            assert(split_on(s, sep)[0] == p[0]);
        } else if p.len() == 1 {
            assert(split_on(s, sep)[0] == p[0].push(s.last()));
            assert(p[0].push(s.last())[0] == p[0][0]);
        } else {
            assert(split_on(s, sep)[0] == p[0]);
        }
    }
}

/// The first word begins with the text's first character when that is not
/// white space.
pub proof fn lemma_words_first(s: Seq<char>)
    requires
        s.len() > 0,
        !is_space(s[0]),
    ensures
        words(s).len() > 0,
        words(s)[0].len() > 0,
        words(s)[0][0] == s[0],
    decreases s.len(),
{
    if s.len() == 1 {
        let e = Seq::<char>::empty();
        assert(s.drop_last() =~= e);
        assert(words(e) == Seq::<Seq<char>>::empty());
        assert(words(s) == Seq::<Seq<char>>::empty().push(seq![s[0]]));
    } else {
        let front = s.drop_last();
        assert(front[0] == s[0]);
        lemma_words_first(front);
        let w = words(front);
        let c = s.last();
        if is_space(c) {
            assert(words(s) == w);
        } else if !is_space(s[s.len() - 2]) {
            assert(words(s) == w.update(w.len() - 1, w.last().push(c)));
            if w.len() == 1 {
                assert(w.last().push(c)[0] == w[0][0]);
            } else {
                assert(words(s)[0] == w[0]);
            }
        } else {
            assert(words(s) == w.push(seq![c]));
            assert(words(s)[0] == w[0]);
        }
    }
}

/// Every word is non-empty, and text ending in a non-space has a word.
pub proof fn lemma_words_shape(p: Seq<char>)
    ensures
        forall|i: int| 0 <= i < words(p).len() ==> (#[trigger] words(p)[i]).len() > 0,
        p.len() > 0 && !is_space(p.last()) ==> words(p).len() > 0,
    decreases p.len(),
{
    if p.len() > 0 {
        let front = p.drop_last();
        lemma_words_shape(front);
        let w = words(front);
        let c = p.last();
        if is_space(c) {
        } else if p.len() >= 2 && !is_space(p[p.len() - 2]) {
            assert(front.last() == p[p.len() - 2]);
            let r = words(p);
            assert forall|i: int| 0 <= i < r.len() implies (#[trigger] r[i]).len() > 0 by {
                if i < w.len() - 1 {
                    assert(r[i] == w[i]);
                }
            }
        } else {
            let r = words(p);
            assert forall|i: int| 0 <= i < r.len() implies (#[trigger] r[i]).len() > 0 by {
                if i < w.len() {
                    assert(r[i] == w[i]);
                }
            }
        }
    }
}

/// Text has no words exactly when it is all white space.
pub proof fn lemma_words_empty_iff_blank(p: Seq<char>)
    ensures
        words(p).len() == 0 <==> forall|i: int| 0 <= i < p.len() ==> is_space(#[trigger] p[i]),
    decreases p.len(),
{
    if p.len() > 0 {
        let front = p.drop_last();
        lemma_words_empty_iff_blank(front);
        lemma_words_shape(p);
        if is_space(p.last()) {
            assert(words(p) == words(front));
            if forall|i: int| 0 <= i < front.len() ==> is_space(#[trigger] front[i]) {
                assert forall|i: int| 0 <= i < p.len() implies is_space(#[trigger] p[i]) by {
                    if i < front.len() {
                        assert(p[i] == front[i]);
                    }
                }
            } else {
                let k = choose|k: int| 0 <= k < front.len() && !is_space(#[trigger] front[k]);
                assert(p[k] == front[k]);
            }
        } else {
            assert(!is_space(p[p.len() - 1]));
        }
    }
}

/// No piece of a split holds the separator.
pub proof fn lemma_split_on_no_separator(s: Seq<char>, sep: char)
    ensures
        forall|i: int, j: int|
            0 <= i < split_on(s, sep).len() && 0 <= j < split_on(s, sep)[i].len() ==> #[trigger] split_on(
                s,
                sep,
            )[i][j] != sep,
    decreases s.len(),
{
    if s.len() > 0 {
        let front = s.drop_last();
        lemma_split_on_no_separator(front, sep);
        lemma_split_on_nonempty(front, sep);
        let p = split_on(front, sep);
        let r = split_on(s, sep);
        assert forall|i: int, j: int| 0 <= i < r.len() && 0 <= j < r[i].len() implies #[trigger] r[i][j]
            != sep by {
            if s.last() == sep {
                if i < p.len() {
                    assert(r[i] == p[i]);
                }
            } else if i == p.len() - 1 {
                assert(r[i] == p[i].push(s.last()));
                if j < p[i].len() {
                    assert(r[i][j] == p[i][j]);
                }
            } else {
                assert(r[i] == p[i]);
            }
        }
    }
}

/// Words hold no white space, and no character that the text lacks.
pub proof fn lemma_words_chars(p: Seq<char>, c: char)
    requires
        forall|k: int| 0 <= k < p.len() ==> #[trigger] p[k] != c,
    ensures
        forall|i: int, j: int|
            0 <= i < words(p).len() && 0 <= j < words(p)[i].len() ==> !is_space(
                #[trigger] words(p)[i][j],
            ) && words(p)[i][j] != c,
    decreases p.len(),
{
    if p.len() > 0 {
        let front = p.drop_last();
        assert forall|k: int| 0 <= k < front.len() implies #[trigger] front[k] != c by {
            assert(front[k] == p[k]);
        }
        lemma_words_chars(front, c);
        lemma_words_shape(front);
        let w = words(front);
        let r = words(p);
        let d = p.last();
        assert(d == p[p.len() - 1]);
        assert forall|i: int, j: int| 0 <= i < r.len() && 0 <= j < r[i].len() implies !is_space(
            #[trigger] r[i][j],
        ) && r[i][j] != c by {
            if is_space(d) {
            } else if p.len() >= 2 && !is_space(p[p.len() - 2]) {
                assert(front.last() == p[p.len() - 2]);
                if i == w.len() - 1 {
                    assert(r[i] == w[i].push(d));
                    if j < w[i].len() {
                        assert(r[i][j] == w[i][j]);
                    }
                } else {
                    assert(r[i] == w[i]);
                }
            } else {
                if i < w.len() {
                    assert(r[i] == w[i]);
                } else {
                    assert(r[i] == seq![d]);
                }
            }
        }
    }
}

/// Joining non-empty pieces gives non-empty text.
pub proof fn lemma_join_nonempty(pieces: Seq<Seq<char>>)
    requires
        pieces.len() > 0,
        forall|i: int| 0 <= i < pieces.len() ==> (#[trigger] pieces[i]).len() > 0,
    ensures
        join_with_space(pieces).len() > 0,
{
}

/// Text without the separator is one piece.
pub proof fn lemma_split_on_without_separator(s: Seq<char>, sep: char)
    requires
        forall|i: int| 0 <= i < s.len() ==> #[trigger] s[i] != sep,
    ensures
        split_on(s, sep) == seq![s],
    decreases s.len(),
{
    if s.len() > 0 {
        let front = s.drop_last();
        assert forall|i: int| 0 <= i < front.len() implies #[trigger] front[i] != sep by {
            assert(front[i] == s[i]);
        }
        lemma_split_on_without_separator(front, sep);
        assert(s.last() == s[s.len() - 1]);
        assert(front.push(s.last()) == s);
        assert(split_on(s, sep) =~= seq![s]);
    } else {
        assert(s =~= Seq::<char>::empty());
    }
}

/// A separator followed by text without one adds that text as a new piece.
pub proof fn lemma_split_on_append(x: Seq<char>, sep: char, b: Seq<char>)
    requires
        forall|i: int| 0 <= i < b.len() ==> #[trigger] b[i] != sep,
    ensures
        split_on(x + seq![sep] + b, sep) == split_on(x, sep).push(b),
    decreases b.len(),
{
    let s = x + seq![sep] + b;
    if b.len() == 0 {
        assert(s.drop_last() =~= x);
        assert(b =~= Seq::<char>::empty());
    } else {
        let front = b.drop_last();
        assert forall|i: int| 0 <= i < front.len() implies #[trigger] front[i] != sep by {
            assert(front[i] == b[i]);
        }
        lemma_split_on_append(x, sep, front);
        assert(s.drop_last() =~= x + seq![sep] + front);
        assert(s.last() == b[b.len() - 1]);
        assert(front.push(b.last()) == b);
        assert(split_on(s, sep) =~= split_on(x, sep).push(b));
    }
}

/// `split_on` always yields at least one piece.
pub proof fn lemma_split_on_nonempty(s: Seq<char>, sep: char)
    ensures
        split_on(s, sep).len() >= 1,
    decreases s.len(),
{
    if s.len() > 0 {
        lemma_split_on_nonempty(s.drop_last(), sep);
    }
}

/// Appends `v[lo..hi]` to `s`.
pub fn push_range(s: &mut String, v: &Vec<char>, lo: usize, hi: usize)
    requires
        lo <= hi <= v@.len(),
    ensures
        final(s)@ == old(s)@ + v@.subrange(lo as int, hi as int),
{
    let ghost start = s@;
    let mut i = lo;
    while i < hi
        invariant
            lo <= i <= hi <= v@.len(),
            s@ == start + v@.subrange(lo as int, i as int),
        decreases hi - i,
    {
        push_char(s, v[i]);
        assert(start + v@.subrange(lo as int, i + 1) =~= start + v@.subrange(lo as int, i as int)
            + seq![v@[i as int]]);
        i += 1;
    }
}

/// The texts of `r[from..]`, joined with single spaces.
pub fn join_ranges(v: &Vec<char>, r: &Vec<(usize, usize)>, from: usize) -> (s: String)
    requires
        from <= r@.len(),
        ranges_within(r@, 0, v@.len() as int),
    ensures
        s@ == join_with_space(ranges_text(v@, r@).skip(from as int)),
{
    let ghost t = ranges_text(v@, r@);
    let mut s = String::new();
    let mut k = from;
    assert(t.subrange(from as int, from as int) =~= Seq::<Seq<char>>::empty());
    while k < r.len()
        invariant
            from <= k <= r@.len(),
            ranges_within(r@, 0, v@.len() as int),
            t == ranges_text(v@, r@),
            s@ == join_with_space(t.subrange(from as int, k as int)),
        decreases r@.len() - k,
    {
        let ghost before = s@;
        let (a, b) = r[k];
        let ghost piece = t.subrange(from as int, k + 1);
        assert(piece.drop_last() =~= t.subrange(from as int, k as int));
        assert(piece.last() == v@.subrange(a as int, b as int));
        if k > from {
            push_char(&mut s, ' ');
            push_range(&mut s, v, a, b);
            assert(s@ =~= before + seq![' '] + piece.last());
        } else {
            push_range(&mut s, v, a, b);
            assert(piece.len() == 1);
            assert(s@ =~= piece[0]);
        }
        k += 1;
    }
    assert(t.subrange(from as int, r@.len() as int) == t.skip(from as int));
    s
}

} // verus!
