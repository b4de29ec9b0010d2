//! Character-level text utilities used by the parsers of this crate.
//!
//! Text is modelled as `Seq<char>`; the executable helpers work on
//! `Vec<char>` copies of strings and state their results over those views.

use vstd::prelude::*;
use crate::error::IntErrorKind;

verus! {

/// An ASCII decimal digit.
pub open spec fn is_digit(c: char) -> bool {
    '0' <= c && c <= '9'
}

/// Unicode `White_Space`, the property that `char::is_whitespace` tests.
pub open spec fn is_white(c: char) -> bool {
    ||| ('\u{9}' <= c && c <= '\u{d}')
    ||| c == ' '
    ||| c == '\u{85}'
    ||| c == '\u{a0}'
    ||| c == '\u{1680}'
    ||| ('\u{2000}' <= c && c <= '\u{200a}')
    ||| c == '\u{2028}'
    ||| c == '\u{2029}'
    ||| c == '\u{202f}'
    ||| c == '\u{205f}'
    ||| c == '\u{3000}'
}

/// `s` without its leading white space.
pub open spec fn trim_start(s: Seq<char>) -> Seq<char>
    decreases s.len(),
{
    if s.len() > 0 && is_white(s[0]) {
        trim_start(s.drop_first())
    } else {
        s
    }
}

/// `s` without its trailing white space.
pub open spec fn trim_end(s: Seq<char>) -> Seq<char>
    decreases s.len(),
{
    if s.len() > 0 && is_white(s.last()) {
        trim_end(s.drop_last())
    } else {
        s
    }
}

/// `s` without leading and trailing white space.
pub open spec fn trim(s: Seq<char>) -> Seq<char> {
    trim_end(trim_start(s))
}

/// `p` is a prefix of `s`.
pub open spec fn starts_with(s: Seq<char>, p: Seq<char>) -> bool {
    p.len() <= s.len() && s.take(p.len() as int) == p
}

/// `p` is a suffix of `s`.
pub open spec fn ends_with(s: Seq<char>, p: Seq<char>) -> bool {
    p.len() <= s.len() && s.skip(s.len() - p.len()) == p
}

/// `p` occurs in `s` at position `i`.
pub open spec fn occurs_at(s: Seq<char>, p: Seq<char>, i: int) -> bool {
    0 <= i && i + p.len() <= s.len() && s.subrange(i, i + p.len()) == p
}

/// `p` occurs somewhere in `s`.
pub open spec fn contains(s: Seq<char>, p: Seq<char>) -> bool {
    exists|i: int| occurs_at(s, p, i)
}

/// A text that neither opens nor ends with white space is its own trim.
pub proof fn lemma_trim_plain(s: Seq<char>)
    requires
        s.len() > 0 ==> !is_white(s[0]) && !is_white(s.last()),
    ensures
        trim(s) == s,
{
}

/// Cutting or padding to a width gives exactly that width, and keeps the
/// text when it fits.
pub proof fn lemma_fit_to(s: Seq<char>, width: nat)
    ensures
        fit_to(s, width).len() == width,
        s.len() <= width ==> fit_to(s, width).take(s.len() as int) == s,
        s.len() > width ==> fit_to(s, width) == s.take(width as int),
{
    if s.len() <= width {
        assert(fit_to(s, width).take(s.len() as int) =~= s);
    }
}

/// Tests `is_white`.
pub fn is_white_char(c: char) -> (b: bool)
    ensures
        b == is_white(c),
{
    ('\u{9}' <= c && c <= '\u{d}') || c == ' ' || c == '\u{85}' || c == '\u{a0}' || c
        == '\u{1680}' || ('\u{2000}' <= c && c <= '\u{200a}') || c == '\u{2028}' || c
        == '\u{2029}' || c == '\u{202f}' || c == '\u{205f}' || c == '\u{3000}'
}

/// Tests `is_digit`.
pub fn is_digit_char(c: char) -> (b: bool)
    ensures
        b == is_digit(c),
{
    '0' <= c && c <= '9'
}

/// Appends a character to a `String` (std's `String::push`).
pub assume_specification[ String::push ](string: &mut String, ch: char)
    ensures
        final(string)@ == old(string)@.push(ch),
;

/// The characters of `s`, in order.
pub fn to_chars(s: &str) -> (v: Vec<char>)
    ensures
        v@ == s@,
{
    let mut v: Vec<char> = Vec::new();
    for c in it: s.chars()
        invariant
            v@ == it.seq().take(it.index() as int),
            it.seq() == s@,
    {
        v.push(c);
    }
    v
}

/// A `String` holding the characters of `v`.
pub fn from_chars(v: &Vec<char>) -> (s: String)
    ensures
        s@ == v@,
{
    let mut s = String::new();
    let n = v.len();
    for i in 0..n
        invariant
            n == v@.len(),
            s@ == v@.take(i as int),
    {
        s.push(v[i]);
        assert(v@.take(i + 1) =~= v@.take(i as int).push(v@[i as int]));
    }
    assert(v@.take(n as int) =~= v@);
    s
}

/// A copy of `v[a..b]`.
pub fn slice_chars(v: &Vec<char>, a: usize, b: usize) -> (r: Vec<char>)
    requires
        a <= b <= v@.len(),
    ensures
        r@ == v@.subrange(a as int, b as int),
{
    let mut r: Vec<char> = Vec::new();
    let mut i = a;
    while i < b
        invariant
            a <= i <= b <= v@.len(),
            r@ == v@.subrange(a as int, i as int),
        decreases b - i,
    {
        r.push(v[i]);
        assert(v@.subrange(a as int, i + 1) =~= v@.subrange(a as int, i as int).push(v@[i as int]));
        i += 1;
    }
    r
}

/// Whether `a` and `b` hold the same characters.
pub fn chars_eq(a: &Vec<char>, b: &Vec<char>) -> (r: bool)
    ensures
        r == (a@ == b@),
{
    if a.len() != b.len() {
        return false;
    }
    let n = a.len();
    for i in 0..n
        invariant
            n == a@.len() == b@.len(),
            forall|j: int| 0 <= j < i ==> a@[j] == b@[j],
    {
        if a[i] != b[i] {
            return false;
        }
    }
    assert(a@ =~= b@);
    true
}

/// Whether `p` occurs in `s` at position `i`.
pub fn occurs_at_chars(s: &Vec<char>, p: &Vec<char>, i: usize) -> (r: bool)
    ensures
        r == occurs_at(s@, p@, i as int),
{
    if i > s.len() || p.len() > s.len() - i {
        return false;
    }
    let n = p.len();
    for j in 0..n
        invariant
            n == p@.len(),
            i + n <= s.len(),
            forall|k: int| 0 <= k < j ==> s@[i + k] == p@[k],
    {
        if s[i + j] != p[j] {
            assert(s@.subrange(i as int, i + n)[j as int] != p@[j as int]);
            return false;
        }
    }
    assert(s@.subrange(i as int, i + n) =~= p@);
    true
}

/// Whether `s` starts with `p`.
pub fn starts_with_chars(s: &Vec<char>, p: &Vec<char>) -> (r: bool)
    ensures
        r == starts_with(s@, p@),
{
    let r = occurs_at_chars(s, p, 0);
    assert(p@.len() <= s@.len() ==> s@.subrange(0, p@.len() as int) =~= s@.take(p@.len() as int));
    r
}

/// Whether `s` ends with `p`.
pub fn ends_with_chars(s: &Vec<char>, p: &Vec<char>) -> (r: bool)
    ensures
        r == ends_with(s@, p@),
{
    if p.len() > s.len() {
        return false;
    }
    let r = occurs_at_chars(s, p, s.len() - p.len());
    assert(s@.subrange(s@.len() - p@.len(), s@.len() as int) =~= s@.skip(s@.len() - p@.len()));
    r
}

/// Whether `p` occurs in `s`.
pub fn contains_chars(s: &Vec<char>, p: &Vec<char>) -> (r: bool)
    ensures
        r == contains(s@, p@),
{
    if p.len() > s.len() {
        return false;
    }
    let last = s.len() - p.len();
    let mut i: usize = 0;
    loop
        invariant
            last == s@.len() - p@.len(),
            0 <= i <= last,
            forall|k: int| 0 <= k < i ==> !occurs_at(s@, p@, k),
        decreases last - i,
    {
        if occurs_at_chars(s, p, i) {
            return true;
        }
        if i == last {
            assert forall|k: int| !occurs_at(s@, p@, k) by {
                if 0 <= k <= i {
                }
            }
            return false;
        }
        i += 1;
    }
}

/// `s` without its leading white space.
pub fn trim_start_chars(s: &Vec<char>) -> (r: Vec<char>)
    ensures
        r@ == trim_start(s@),
{
    let n = s.len();
    let mut i: usize = 0;
    assert(s@.skip(0) =~= s@);
    while i < n && is_white_char(s[i])
        invariant
            n == s@.len(),
            i <= n,
            trim_start(s@) == trim_start(s@.skip(i as int)),
        decreases n - i,
    {
        assert(s@.skip(i as int).drop_first() =~= s@.skip(i + 1));
        i += 1;
    }
    assert(s@.subrange(i as int, n as int) =~= s@.skip(i as int));
    slice_chars(s, i, n)
}

/// `s` without its trailing white space.
pub fn trim_end_chars(s: &Vec<char>) -> (r: Vec<char>)
    ensures
        r@ == trim_end(s@),
{
    let n = s.len();
    let mut j: usize = n;
    assert(s@.take(n as int) =~= s@);
    while j > 0 && is_white_char(s[j - 1])
        invariant
            n == s@.len(),
            j <= n,
            trim_end(s@) == trim_end(s@.take(j as int)),
        decreases j,
    {
        assert(s@.take(j as int).drop_last() =~= s@.take(j - 1));
        j -= 1;
    }
    assert(s@.subrange(0, j as int) =~= s@.take(j as int));
    slice_chars(s, 0, j)
}

/// `s` without leading and trailing white space.
pub fn trim_chars(s: &Vec<char>) -> (r: Vec<char>)
    ensures
        r@ == trim(s@),
{
    let t = trim_start_chars(s);
    trim_end_chars(&t)
}


/// Number of leading characters of `s` that differ from `sep`.
pub open spec fn run_len(s: Seq<char>, sep: char) -> nat
    decreases s.len(),
{
    if s.len() == 0 || s[0] == sep {
        0
    } else {
        1 + run_len(s.drop_first(), sep)
    }
}

pub proof fn lemma_run_len(s: Seq<char>, sep: char, m: int)
    requires
        0 <= m <= s.len(),
        forall|k: int| 0 <= k < m ==> s[k] != sep,
        m == s.len() || s[m] == sep,
    ensures
        run_len(s, sep) == m,
    decreases m,
{
    if m > 0 {
        lemma_run_len(s.drop_first(), sep, m - 1);
    }
}

pub proof fn lemma_run_len_bound(s: Seq<char>, sep: char)
    ensures
        run_len(s, sep) <= s.len(),
        run_len(s, sep) < s.len() ==> s[run_len(s, sep) as int] == sep,
        forall|k: int| 0 <= k < run_len(s, sep) ==> s[k] != sep,
    decreases s.len(),
{
    if s.len() > 0 && s[0] != sep {
        lemma_run_len_bound(s.drop_first(), sep);
        assert forall|k: int| 0 <= k < run_len(s, sep) implies s[k] != sep by {
            if k > 0 {
                assert(s[k] == s.drop_first()[k - 1]);
            }
        }
    }
}

/// The pieces of `s` between occurrences of `sep` (`str::split` with a
/// character pattern): never empty, and the pieces hold no `sep`.
pub open spec fn split_on(s: Seq<char>, sep: char) -> Seq<Seq<char>>
    decreases s.len(),
{
    let k = run_len(s, sep);
    if k >= s.len() {
        seq![s]
    } else {
        seq![s.take(k as int)] + split_on(s.skip(k + 1 as int), sep)
    }
}

/// The pieces of `parts` glued with `sep` between them (`[T]::join`).
pub open spec fn join_with(parts: Seq<Seq<char>>, sep: char) -> Seq<char>
    decreases parts.len(),
{
    if parts.len() == 0 {
        seq![]
    } else if parts.len() == 1 {
        parts[0]
    } else {
        join_with(parts.drop_last(), sep) + seq![sep] + parts.last()
    }
}

/// No piece holds `sep`.
pub open spec fn free_of(parts: Seq<Seq<char>>, sep: char) -> bool {
    forall|i: int, k: int| 0 <= i < parts.len() && 0 <= k < parts[i].len() ==> parts[i][k] != sep
}

pub proof fn lemma_join_front(a: Seq<char>, rest: Seq<Seq<char>>, sep: char)
    requires
        rest.len() > 0,
    ensures
        join_with(seq![a] + rest, sep) == a + seq![sep] + join_with(rest, sep),
    decreases rest.len(),
{
    let all = seq![a] + rest;
    assert(all.len() == rest.len() + 1);
    if rest.len() == 1 {
        assert(all.drop_last() =~= seq![a]);
        assert(all.last() == rest[0]);
        assert(join_with(seq![a], sep) == a);
        assert(join_with(rest, sep) == rest[0]);
        assert(join_with(all, sep) == join_with(all.drop_last(), sep) + seq![sep] + all.last());
    } else {
        lemma_join_front(a, rest.drop_last(), sep);
        assert(all.drop_last() =~= seq![a] + rest.drop_last());
        assert(all.last() == rest.last());
        assert(join_with(all, sep) == join_with(all.drop_last(), sep) + seq![sep] + all.last());
        assert(join_with(rest, sep) == join_with(rest.drop_last(), sep) + seq![sep] + rest.last());
        assert(a + seq![sep] + join_with(rest.drop_last(), sep) + seq![sep] + rest.last() =~= a
            + seq![sep] + (join_with(rest.drop_last(), sep) + seq![sep] + rest.last()));
    }
}

pub proof fn lemma_split_facts(s: Seq<char>, sep: char)
    ensures
        split_on(s, sep).len() > 0,
        free_of(split_on(s, sep), sep),
        join_with(split_on(s, sep), sep) == s,
    decreases s.len(),
{
    lemma_run_len_bound(s, sep);
    let k = run_len(s, sep);
    if k >= s.len() {
        assert(split_on(s, sep) =~= seq![s]);
    } else {
        let rest = s.skip(k + 1 as int);
        lemma_split_facts(rest, sep);
        let parts = split_on(s, sep);
        assert(parts =~= seq![s.take(k as int)] + split_on(rest, sep));
        lemma_join_front(s.take(k as int), split_on(rest, sep), sep);
        assert(s.take(k as int) + seq![sep] + rest =~= s);
        assert forall|i: int, j: int| 0 <= i < parts.len() && 0 <= j < parts[i].len() implies parts[i][j]
            != sep by {
            if i > 0 {
                assert(parts[i] == split_on(rest, sep)[i - 1]);
            }
        }
    }
}

pub proof fn lemma_split_join(parts: Seq<Seq<char>>, sep: char)
    requires
        parts.len() > 0,
        free_of(parts, sep),
    ensures
        split_on(join_with(parts, sep), sep) == parts,
    decreases parts.len(),
{
    let a = parts[0];
    lemma_run_len(a, sep, a.len() as int);
    if parts.len() == 1 {
        assert(join_with(parts, sep) == a);
        assert(split_on(a, sep) =~= seq![a]);
        assert(parts =~= seq![a]);
    } else {
        let rest = parts.drop_first();
        assert(parts =~= seq![a] + rest);
        lemma_join_front(a, rest, sep);
        let s = join_with(parts, sep);
        assert(free_of(rest, sep)) by {
            assert forall|i: int, k: int| 0 <= i < rest.len() && 0 <= k < rest[i].len() implies rest[i][k]
                != sep by {
                assert(rest[i] == parts[i + 1]);
            }
        }
        lemma_split_join(rest, sep);
        let t = join_with(rest, sep);
        assert(s == a + seq![sep] + t);
        assert forall|k: int| 0 <= k < a.len() implies s[k] != sep by {
            assert(s[k] == a[k]);
        }
        lemma_run_len(s, sep, a.len() as int);
        assert(s.take(a.len() as int) =~= a);
        assert(s.skip(a.len() + 1 as int) =~= t);
        assert(split_on(s, sep) =~= seq![a] + split_on(t, sep));
    }
}

/// `str::split` on a character: the pieces of `s` between occurrences of `sep`.
pub fn split_chars(s: &Vec<char>, sep: char) -> (parts: Vec<Vec<char>>)
    ensures
        parts@.map_values(|p: Vec<char>| p@) == split_on(s@, sep),
{
    let n = s.len();
    let mut parts: Vec<Vec<char>> = Vec::new();
    let mut start: usize = 0;
    let mut i: usize = 0;
    assert(s@.skip(0) =~= s@);
    loop
        invariant
            n == s@.len(),
            start <= i <= n,
            forall|k: int| start <= k < i ==> s@[k] != sep,
            split_on(s@, sep) == parts@.map_values(|p: Vec<char>| p@) + split_on(
                s@.skip(start as int),
                sep,
            ),
        decreases n - i,
    {
        let ghost rest = s@.skip(start as int);
        if i == n || s[i] == sep {
            proof {
                assert forall|k: int| 0 <= k < i - start implies rest[k] != sep by {
                    assert(rest[k] == s@[start + k]);
                }
                lemma_run_len(rest, sep, i - start);
            }
            let piece = slice_chars(s, start, i);
            assert(piece@ =~= rest.take(i - start));
            let ghost before = parts@.map_values(|p: Vec<char>| p@);
            parts.push(piece);
            assert(parts@.map_values(|p: Vec<char>| p@) =~= before.push(piece@));
            if i == n {
                assert(split_on(rest, sep) == seq![rest]);
                assert(rest.take(i - start) =~= rest);
                assert(before.push(piece@) =~= before + seq![rest]);
                return parts;
            }
            assert(rest.skip(i - start + 1) =~= s@.skip(i + 1));
            assert(before.push(piece@) + split_on(s@.skip(i + 1), sep) =~= before + (seq![
                rest.take(i - start),
            ] + split_on(rest.skip(i - start + 1), sep)));
            i += 1;
            start = i;
        } else {
            i += 1;
        }
    }
}

/// `[T]::join` with a one-character separator.
pub fn join_chars(parts: &Vec<Vec<char>>, count: usize, sep: char) -> (r: Vec<char>)
    requires
        count <= parts@.len(),
    ensures
        r@ == join_with(parts@.map_values(|p: Vec<char>| p@).take(count as int), sep),
{
    let ghost views = parts@.map_values(|p: Vec<char>| p@);
    let mut r: Vec<char> = Vec::new();
    assert(views.take(0) =~= Seq::<Seq<char>>::empty());
    for i in 0..count
        invariant
            count <= parts@.len(),
            views == parts@.map_values(|p: Vec<char>| p@),
            r@ == join_with(views.take(i as int), sep),
    {
        let ghost before = r@;
        if i > 0 {
            r.push(sep);
        }
        let piece = &parts[i];
        let m = piece.len();
        for j in 0..m
            invariant
                m == piece@.len(),
                r@ == (if i > 0 { before + seq![sep] } else { before }) + piece@.take(j as int),
        {
            r.push(piece[j]);
            assert(piece@.take(j + 1) =~= piece@.take(j as int).push(piece@[j as int]));
        }
        assert(piece@.take(m as int) =~= piece@);
        assert(views.take(i + 1).drop_last() =~= views.take(i as int));
        assert(views[i as int] == piece@);
        if i == 0 {
            assert(views.take(1) =~= seq![piece@]);
            assert(before =~= Seq::<char>::empty());
            assert(r@ =~= piece@);
        }
    }
    r
}


/// Number of leading characters of `s` that are not white space.
pub open spec fn word_len(s: Seq<char>) -> nat
    decreases s.len(),
{
    if s.len() == 0 || is_white(s[0]) {
        0
    } else {
        1 + word_len(s.drop_first())
    }
}

pub proof fn lemma_word_len(s: Seq<char>, m: int)
    requires
        0 <= m <= s.len(),
        forall|k: int| 0 <= k < m ==> !is_white(s[k]),
        m == s.len() || is_white(s[m]),
    ensures
        word_len(s) == m,
    decreases m,
{
    if m > 0 {
        lemma_word_len(s.drop_first(), m - 1);
    }
}

/// The white-space separated words of `s` (`str::split_whitespace`).
pub open spec fn words(s: Seq<char>) -> Seq<Seq<char>>
    decreases s.len(),
{
    if s.len() == 0 {
        seq![]
    } else if is_white(s[0]) {
        words(s.drop_first())
    } else {
        let w = word_len(s);
        proof {
            lemma_word_len_bound(s);
        }
        seq![s.take(w as int)] + words(s.skip(w as int))
    }
}

pub proof fn lemma_word_len_bound(s: Seq<char>)
    ensures
        word_len(s) <= s.len(),
    decreases s.len(),
{
    if s.len() > 0 && !is_white(s[0]) {
        lemma_word_len_bound(s.drop_first());
    }
}

/// No character of `s` is white space.
pub open spec fn no_white(s: Seq<char>) -> bool {
    forall|i: int| 0 <= i < s.len() ==> !is_white(#[trigger] s[i])
}

/// Every character of `s` is white space.
pub open spec fn all_white(s: Seq<char>) -> bool {
    forall|i: int| 0 <= i < s.len() ==> is_white(#[trigger] s[i])
}

proof fn lemma_word_len_concat(a: Seq<char>, b: Seq<char>)
    requires
        word_len(a) < a.len() || b.len() == 0 || is_white(b[0]),
    ensures
        word_len(a + b) == word_len(a),
    decreases a.len(),
{
    if a.len() == 0 {
        assert(a + b =~= b);
    } else {
        assert((a + b)[0] == a[0]);
        if !is_white(a[0]) {
            assert((a + b).drop_first() =~= a.drop_first() + b);
            lemma_word_len_concat(a.drop_first(), b);
        }
    }
}

/// A white-space run between two texts separates their words.
pub proof fn lemma_words_concat(a: Seq<char>, ws: Seq<char>, b: Seq<char>)
    requires
        ws.len() > 0,
        all_white(ws),
    ensures
        words(a + ws + b) == words(a) + words(b),
    decreases a.len() + ws.len(),
{
    let all = a + ws + b;
    if a.len() == 0 {
        assert(all =~= ws + b);
        assert(words(a) =~= Seq::<Seq<char>>::empty());
        assert(all[0] == ws[0]);
        if ws.len() == 1 {
            assert(all.drop_first() =~= b);
        } else {
            let rest = ws.drop_first();
            assert(all.drop_first() =~= a + rest + b);
            assert(all_white(rest)) by {
                assert forall|i: int| 0 <= i < rest.len() implies is_white(#[trigger] rest[i]) by {
                    assert(rest[i] == ws[i + 1]);
                }
            }
            lemma_words_concat(a, rest, b);
        }
        assert(words(a) + words(b) =~= words(b));
    } else if is_white(a[0]) {
        assert(all[0] == a[0]);
        assert(all.drop_first() =~= a.drop_first() + ws + b);
        lemma_words_concat(a.drop_first(), ws, b);
    } else {
        assert(all[0] == a[0]);
        let u = ws + b;
        assert(all =~= a + u);
        assert(u[0] == ws[0]);
        lemma_word_len_concat(a, u);
        lemma_word_len_bound(a);
        let k = word_len(a) as int;
        assert(k >= 1);
        assert(all.take(k) =~= a.take(k));
        assert(all.skip(k) =~= a.skip(k) + ws + b);
        lemma_words_concat(a.skip(k), ws, b);
        assert(words(all) == seq![a.take(k)] + words(all.skip(k)));
        assert(words(a) == seq![a.take(k)] + words(a.skip(k)));
        assert(seq![a.take(k)] + (words(a.skip(k)) + words(b)) =~= seq![a.take(k)] + words(
            a.skip(k),
        ) + words(b));
    }
}

/// A text of one word, without white space, is its only word.
pub proof fn lemma_words_single(w: Seq<char>)
    requires
        w.len() > 0,
        no_white(w),
    ensures
        words(w) == seq![w],
{
    lemma_word_len(w, w.len() as int);
    assert(w.take(w.len() as int) =~= w);
    assert(w.skip(w.len() as int) =~= Seq::<char>::empty());
    assert(words(Seq::<char>::empty()) =~= Seq::<Seq<char>>::empty());
    assert(seq![w] + Seq::<Seq<char>>::empty() =~= seq![w]);
}

/// `str::split_whitespace`: the white-space separated words of `s`.
pub fn words_chars(s: &Vec<char>) -> (out: Vec<Vec<char>>)
    ensures
        out@.map_values(|p: Vec<char>| p@) == words(s@),
{
    let n = s.len();
    let mut out: Vec<Vec<char>> = Vec::new();
    let mut i: usize = 0;
    assert(s@.skip(0) =~= s@);
    while i < n
        invariant
            n == s@.len(),
            i <= n,
            words(s@) == out@.map_values(|p: Vec<char>| p@) + words(s@.skip(i as int)),
        decreases n - i,
    {
        let ghost rest = s@.skip(i as int);
        let ghost before = out@.map_values(|p: Vec<char>| p@);
        if is_white_char(s[i]) {
            assert(rest.drop_first() =~= s@.skip(i + 1));
            i += 1;
        } else {
            let mut j = i + 1;
            while j < n && !is_white_char(s[j])
                invariant
                    n == s@.len(),
                    i < j <= n,
                    forall|k: int| i <= k < j ==> !is_white(s@[k]),
                decreases n - j,
            {
                j += 1;
            }
            proof {
                assert forall|k: int| 0 <= k < j - i implies !is_white(rest[k]) by {
                    assert(rest[k] == s@[i + k]);
                }
                lemma_word_len(rest, j - i);
            }
            let piece = slice_chars(s, i, j);
            assert(piece@ =~= rest.take(j - i));
            out.push(piece);
            assert(out@.map_values(|p: Vec<char>| p@) =~= before.push(piece@));
            assert(rest.skip(j - i) =~= s@.skip(j as int));
            assert(before.push(piece@) + words(s@.skip(j as int)) =~= before + (seq![
                rest.take(j - i),
            ] + words(rest.skip(j - i))));
            i = j;
        }
    }
    assert(s@.skip(n as int) =~= Seq::<char>::empty());
    assert(out@.map_values(|p: Vec<char>| p@) + Seq::<Seq<char>>::empty() =~= out@.map_values(
        |p: Vec<char>| p@,
    ));
    out
}

/// `s` without one trailing carriage return.
pub open spec fn strip_cr(s: Seq<char>) -> Seq<char> {
    if s.len() > 0 && s.last() == '\r' {
        s.drop_last()
    } else {
        s
    }
}

/// The lines of `s` (`str::lines`): split at `\n`, a `\r` before a `\n` is
/// dropped too, and a final line ending adds no empty line.
pub open spec fn text_lines(s: Seq<char>) -> Seq<Seq<char>>
    decreases s.len(),
{
    if s.len() == 0 {
        seq![]
    } else {
        let k = run_len(s, '\n');
        if k >= s.len() {
            seq![s]
        } else {
            seq![strip_cr(s.take(k as int))] + text_lines(s.skip(k + 1 as int))
        }
    }
}

/// `str::lines`: the lines of `s`.
pub fn lines_chars(s: &Vec<char>) -> (out: Vec<Vec<char>>)
    ensures
        out@.map_values(|p: Vec<char>| p@) == text_lines(s@),
{
    let n = s.len();
    let mut out: Vec<Vec<char>> = Vec::new();
    let mut start: usize = 0;
    assert(s@.skip(0) =~= s@);
    while start < n
        invariant
            n == s@.len(),
            start <= n,
            text_lines(s@) == out@.map_values(|p: Vec<char>| p@) + text_lines(
                s@.skip(start as int),
            ),
        decreases n - start,
    {
        let ghost rest = s@.skip(start as int);
        let ghost before = out@.map_values(|p: Vec<char>| p@);
        let mut i = start;
        while i < n && s[i] != '\n'
            invariant
                n == s@.len(),
                start <= i <= n,
                forall|k: int| start <= k < i ==> s@[k] != '\n',
            decreases n - i,
        {
            i += 1;
        }
        proof {
            assert forall|k: int| 0 <= k < i - start implies rest[k] != '\n' by {
                assert(rest[k] == s@[start + k]);
            }
            lemma_run_len(rest, '\n', i - start);
        }
        if i == n {
            let piece = slice_chars(s, start, n);
            assert(piece@ =~= rest);
            out.push(piece);
            assert(out@.map_values(|p: Vec<char>| p@) =~= before + seq![rest]);
            assert(s@.skip(n as int) =~= Seq::<char>::empty());
            assert(before + seq![rest] + Seq::<Seq<char>>::empty() =~= before + seq![rest]);
            start = n;
        } else {
            let end = if i > start && s[i - 1] == '\r' {
                i - 1
            } else {
                i
            };
            let piece = slice_chars(s, start, end);
            assert(piece@ =~= strip_cr(rest.take(i - start)));
            out.push(piece);
            assert(out@.map_values(|p: Vec<char>| p@) =~= before.push(piece@));
            assert(rest.skip(i - start + 1) =~= s@.skip(i + 1));
            assert(before.push(piece@) + text_lines(s@.skip(i + 1)) =~= before + (seq![
                strip_cr(rest.take(i - start)),
            ] + text_lines(rest.skip(i - start + 1))));
            start = i + 1;
        }
    }
    assert(s@.skip(start as int) =~= Seq::<char>::empty());
    assert(out@.map_values(|p: Vec<char>| p@) + Seq::<Seq<char>>::empty() =~= out@.map_values(
        |p: Vec<char>| p@,
    ));
    out
}

/// The value of a decimal digit character.
pub open spec fn digit_value(c: char) -> nat {
    (c as int - '0' as int) as nat
}

/// The decimal digit character of `d < 10`.
pub open spec fn digit_char(d: nat) -> char {
    ('0' as int + d) as char
}

/// Reads the decimal digits of `s` after the value `acc` read so far, as
/// `usize::from_str` does: the first non-digit is an invalid digit, and a
/// value past `usize::MAX` an overflow, whichever comes first.
pub open spec fn parse_digits(s: Seq<char>, acc: nat) -> Result<usize, IntErrorKind>
    decreases s.len(),
{
    if s.len() == 0 {
        Ok(acc as usize)
    } else if !is_digit(s[0]) {
        Err(IntErrorKind::InvalidDigit)
    } else {
        let a = acc * 10 + digit_value(s[0]);
        if a > usize::MAX {
            Err(IntErrorKind::PosOverflow)
        } else {
            parse_digits(s.drop_first(), a)
        }
    }
}

/// `usize::from_str`: an optional `+`, then at least one decimal digit.
pub open spec fn parse_usize(s: Seq<char>) -> Result<usize, IntErrorKind> {
    if s.len() == 0 {
        Err(IntErrorKind::Empty)
    } else {
        let digits = if s[0] == '+' {
            s.drop_first()
        } else {
            s
        };
        if digits.len() == 0 {
            Err(IntErrorKind::InvalidDigit)
        } else {
            parse_digits(digits, 0)
        }
    }
}

/// `usize::from_str` on the characters of `s`.
pub fn parse_usize_chars(s: &Vec<char>) -> (r: Result<usize, IntErrorKind>)
    ensures
        r == parse_usize(s@),
{
    let n = s.len();
    if n == 0 {
        return Err(IntErrorKind::Empty);
    }
    let start: usize = if s[0] == '+' {
        1
    } else {
        0
    };
    if start == n {
        return Err(IntErrorKind::InvalidDigit);
    }
    let ghost digits = s@.skip(start as int);
    assert(digits =~= (if s@[0] == '+' {
        s@.drop_first()
    } else {
        s@
    }));
    assert(parse_usize(s@) == parse_digits(digits, 0));
    let mut acc: usize = 0;
    let mut i = start;
    while i < n
        invariant
            n == s@.len(),
            start <= i <= n,
            digits == s@.skip(start as int),
            parse_usize(s@) == parse_digits(digits, 0),
            parse_digits(digits, 0) == parse_digits(s@.skip(i as int), acc as nat),
        decreases n - i,
    {
        let c = s[i];
        assert(s@.skip(i as int)[0] == c);
        assert(s@.skip(i as int).drop_first() =~= s@.skip(i + 1));
        if !is_digit_char(c) {
            return Err(IntErrorKind::InvalidDigit);
        }
        let d = (c as u32 - '0' as u32) as usize;
        assert(d == digit_value(c));
        if acc > (usize::MAX - d) / 10 {
            assert(acc * 10 + d > usize::MAX) by (nonlinear_arith)
                requires
                    acc > (usize::MAX - d) / 10,
                    d <= 9,
            ;
            return Err(IntErrorKind::PosOverflow);
        }
        assert(acc * 10 + d <= usize::MAX) by (nonlinear_arith)
            requires
                acc <= (usize::MAX - d) / 10,
                d <= 9,
        ;
        acc = acc * 10 + d;
        i += 1;
    }
    assert(s@.skip(n as int) =~= Seq::<char>::empty());
    Ok(acc)
}

/// The decimal digits of `n`, most significant first, as `usize`'s
/// `Display` writes them.
pub open spec fn decimal(n: nat) -> Seq<char>
    decreases n,
{
    if n < 10 {
        seq![digit_char(n)]
    } else {
        decimal(n / 10).push(digit_char(n % 10))
    }
}

/// The value of the decimal digits `s` read after the value `acc`.
pub open spec fn digits_value(s: Seq<char>, acc: nat) -> nat
    decreases s.len(),
{
    if s.len() == 0 {
        acc
    } else {
        digits_value(s.drop_first(), acc * 10 + digit_value(s[0]))
    }
}

proof fn lemma_digits_value_grows(s: Seq<char>, acc: nat)
    ensures
        digits_value(s, acc) >= acc,
    decreases s.len(),
{
    if s.len() > 0 {
        lemma_digits_value_grows(s.drop_first(), acc * 10 + digit_value(s[0]));
    }
}

proof fn lemma_digits_value_push(s: Seq<char>, c: char, acc: nat)
    ensures
        digits_value(s.push(c), acc) == digits_value(s, acc) * 10 + digit_value(c),
    decreases s.len(),
{
    let t = s.push(c);
    if s.len() == 0 {
        assert(t.drop_first() =~= Seq::<char>::empty());
        assert(t[0] == c);
        assert(digits_value(t, acc) == digits_value(t.drop_first(), acc * 10 + digit_value(c)));
    } else {
        assert(t.drop_first() =~= s.drop_first().push(c));
        assert(t[0] == s[0]);
        lemma_digits_value_push(s.drop_first(), c, acc * 10 + digit_value(s[0]));
        assert(digits_value(t, acc) == digits_value(t.drop_first(), acc * 10 + digit_value(s[0])));
    }
}

proof fn lemma_parse_digits_value(s: Seq<char>, acc: nat)
    requires
        forall|i: int| 0 <= i < s.len() ==> is_digit(#[trigger] s[i]),
        digits_value(s, acc) <= usize::MAX,
    ensures
        parse_digits(s, acc) == Ok::<usize, IntErrorKind>(digits_value(s, acc) as usize),
    decreases s.len(),
{
    if s.len() > 0 {
        let a = acc * 10 + digit_value(s[0]);
        lemma_digits_value_grows(s.drop_first(), a);
        assert forall|i: int| 0 <= i < s.drop_first().len() implies is_digit(#[trigger] s.drop_first()[i]) by {
            assert(s.drop_first()[i] == s[i + 1]);
        }
        lemma_parse_digits_value(s.drop_first(), a);
    }
}

proof fn lemma_decimal_value(n: nat)
    ensures
        decimal(n).len() > 0,
        forall|i: int| 0 <= i < decimal(n).len() ==> is_digit(#[trigger] decimal(n)[i]),
        digits_value(decimal(n), 0) == n,
    decreases n,
{
    let d = n % 10;
    assert(digit_value(digit_char(d)) == d);
    assert(is_digit(digit_char(d)));
    if n < 10 {
        assert(decimal(n) =~= seq![digit_char(n)]);
        assert(decimal(n).drop_first() =~= Seq::<char>::empty());
        assert(digits_value(decimal(n), 0) == digits_value(
            decimal(n).drop_first(),
            0 * 10 + digit_value(decimal(n)[0]),
        ));
    } else {
        lemma_decimal_value(n / 10);
        lemma_digits_value_push(decimal(n / 10), digit_char(d), 0);
        assert(n == (n / 10) * 10 + n % 10) by (nonlinear_arith);
        assert forall|i: int| 0 <= i < decimal(n).len() implies is_digit(#[trigger] decimal(n)[i]) by {
            if i < decimal(n / 10).len() {
                assert(decimal(n)[i] == decimal(n / 10)[i]);
            }
        }
    }
}

/// Decimal digits read back as the number they show.
pub proof fn lemma_parse_decimal(n: usize)
    ensures
        parse_usize(decimal(n as nat)) == Ok::<usize, IntErrorKind>(n),
{
    lemma_decimal_value(n as nat);
    lemma_parse_digits_value(decimal(n as nat), 0);
    assert(is_digit(decimal(n as nat)[0]));
}

/// The decimal digits of `n`.
pub fn decimal_chars(n: usize) -> (r: Vec<char>)
    ensures
        r@ == decimal(n as nat),
    decreases n,
{
    let d = n % 10;
    let c = char_of_digit(d);
    if n < 10 {
        let mut v: Vec<char> = Vec::new();
        v.push(c);
        assert(v@ =~= seq![digit_char(n as nat)]);
        v
    } else {
        let mut v = decimal_chars(n / 10);
        v.push(c);
        v
    }
}

fn char_of_digit(d: usize) -> (c: char)
    requires
        d < 10,
    ensures
        c == digit_char(d as nat),
{
    match d {
        0 => '0',
        1 => '1',
        2 => '2',
        3 => '3',
        4 => '4',
        5 => '5',
        6 => '6',
        7 => '7',
        8 => '8',
        _ => '9',
    }
}


/// `n` spaces.
pub open spec fn spaces(n: nat) -> Seq<char> {
    Seq::new(n, |i: int| ' ')
}

/// `s` padded with spaces on the right to at least `width` characters, as
/// `format!("{:<width$}", s)` writes it.
pub open spec fn pad_right(s: Seq<char>, width: nat) -> Seq<char> {
    if s.len() >= width {
        s
    } else {
        s + spaces((width - s.len()) as nat)
    }
}

/// `s` cut to at most `width` characters, then padded to `width`, as
/// `format!("{: <width$.width$}", s)` writes it.
pub open spec fn fit_to(s: Seq<char>, width: nat) -> Seq<char> {
    pad_right(
        if s.len() > width {
            s.take(width as int)
        } else {
            s
        },
        width,
    )
}

/// Pads `s` with spaces on the right to at least `width` characters.
pub fn pad_right_chars(s: &Vec<char>, width: usize) -> (r: Vec<char>)
    ensures
        r@ == pad_right(s@, width as nat),
{
    let mut r = slice_chars(s, 0, s.len());
    assert(s@.subrange(0, s@.len() as int) =~= s@);
    let n = s.len();
    if n >= width {
        return r;
    }
    let mut i = n;
    while i < width
        invariant
            n == s@.len(),
            n <= i <= width,
            r@ == s@ + spaces((i - n) as nat),
        decreases width - i,
    {
        r.push(' ');
        assert(s@ + spaces((i + 1 - n) as nat) =~= (s@ + spaces((i - n) as nat)).push(' '));
        i += 1;
    }
    r
}

/// Cuts `s` to at most `width` characters, then pads it to `width`.
pub fn fit_to_chars(s: &Vec<char>, width: usize) -> (r: Vec<char>)
    ensures
        r@ == fit_to(s@, width as nat),
{
    if s.len() > width {
        let cut = slice_chars(s, 0, width);
        assert(cut@ =~= s@.take(width as int));
        pad_right_chars(&cut, width)
    } else {
        pad_right_chars(s, width)
    }
}

/// The characters of each string.
pub open spec fn views_of(strings: Seq<String>) -> Seq<Seq<char>> {
    strings.map_values(|l: String| l@)
}

/// Copies the strings as character vectors.
pub fn chars_of_all(strings: &Vec<String>) -> (r: Vec<Vec<char>>)
    ensures
        r@.map_values(|v: Vec<char>| v@) == views_of(strings@),
        r@.len() == strings@.len(),
        views_of(strings@).len() == strings@.len(),
{
    let mut r: Vec<Vec<char>> = Vec::new();
    let n = strings.len();
    for i in 0..n
        invariant
            n == strings@.len(),
            r@.len() == i,
            forall|k: int| 0 <= k < i ==> #[trigger] r@[k]@ == strings@[k]@,
    {
        r.push(to_chars(strings[i].as_str()));
    }
    assert(r@.map_values(|v: Vec<char>| v@) =~= views_of(strings@));
    r
}

/// What `str::to_lowercase` makes of a text (the Unicode lowercase mapping).
pub uninterp spec fn lowercase(text: Seq<char>) -> Seq<char>;

/// `str::to_lowercase`. Claimed: the result depends on the text alone
/// (named `lowercase`).
#[verifier::external_body]
pub(crate) fn to_lowercase(text: &str) -> (r: String)
    ensures
        r@ == lowercase(text@),
{
    text.to_lowercase()
}

/// What `String::from_utf8_lossy` makes of some bytes.
pub uninterp spec fn lossy_text(bytes: Seq<u8>) -> Seq<char>;

/// `String::from_utf8_lossy`. Claimed: the result depends on the bytes alone
/// (named `lossy_text`), and valid UTF-8 is decoded as it is.
#[verifier::external_body]
pub(crate) fn utf8_lossy(bytes: &[u8]) -> (r: String)
    ensures
        r@ == lossy_text(bytes@),
        vstd::utf8::valid_utf8(bytes@) ==> r@ == vstd::utf8::decode_utf8(bytes@),
{
    String::from_utf8_lossy(bytes).into_owned()
}

} // verus!
