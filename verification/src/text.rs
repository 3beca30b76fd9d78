//! Character-level text handling: the whitespace and control classes, trimming,
//! splitting, joining, and line breaking, each with its mathematical model.
use vstd::prelude::*;

use crate::unicode::{alphanumeric, is_alphanumeric};

verus! {

// ── character classes ────────────────────────────────────────────────────────

/// The Unicode `White_Space` property, the class that `char::is_whitespace`
/// tests and that `str::trim` and `str::split_whitespace` strip.
pub open spec fn is_ws(c: char) -> bool {
    ||| c == '\t' || c == '\n' || c == '\u{0B}' || c == '\u{0C}' || c == '\r' || c == ' '
    ||| c == '\u{85}' || c == '\u{A0}' || c == '\u{1680}'
    ||| ('\u{2000}' <= c && c <= '\u{200A}')
    ||| c == '\u{2028}' || c == '\u{2029}' || c == '\u{202F}' || c == '\u{205F}' || c == '\u{3000}'
}

/// The Unicode general category `Cc`, the class that `char::is_control` tests.
pub open spec fn is_control(c: char) -> bool {
    c <= '\u{1F}' || ('\u{7F}' <= c && c <= '\u{9F}')
}

/// Invisible characters that survive copy-paste from rich-text sources.
pub open spec fn is_zero_width(c: char) -> bool {
    c == '\u{200B}' || c == '\u{200C}' || c == '\u{200D}' || c == '\u{2060}' || c == '\u{FEFF}'
}

pub fn whitespace(c: char) -> (r: bool)
    ensures
        r == is_ws(c),
{
    c == '\t' || c == '\n' || c == '\u{0B}' || c == '\u{0C}' || c == '\r' || c == ' ' || c
        == '\u{85}' || c == '\u{A0}' || c == '\u{1680}' || ('\u{2000}' <= c && c <= '\u{200A}')
        || c == '\u{2028}' || c == '\u{2029}' || c == '\u{202F}' || c == '\u{205F}' || c
        == '\u{3000}'
}

pub fn control(c: char) -> (r: bool)
    ensures
        r == is_control(c),
{
    c <= '\u{1F}' || ('\u{7F}' <= c && c <= '\u{9F}')
}

pub fn zero_width(c: char) -> (r: bool)
    ensures
        r == is_zero_width(c),
{
    c == '\u{200B}' || c == '\u{200C}' || c == '\u{200D}' || c == '\u{2060}' || c == '\u{FEFF}'
}

} // verus!

verus! {

// ── splitting and joining ────────────────────────────────────────────────────

/// The separators that the library splits text at.
#[derive(Clone, Copy, PartialEq, Eq)]
pub enum Separator {
    Newline,
    Whitespace,
    NonAlphanumeric,
    Char(char),
}

pub open spec fn separates(sep: Separator, c: char) -> bool {
    match sep {
        Separator::Newline => c == '\n',
        Separator::Whitespace => is_ws(c),
        Separator::NonAlphanumeric => !alphanumeric(c),
        Separator::Char(d) => c == d,
    }
}

// ── trimming ─────────────────────────────────────────────────────────────────

/// `s` without its leading separator characters.
pub open spec fn trim_start_by(s: Seq<char>, sep: Separator) -> Seq<char>
    decreases s.len(),
{
    if s.len() > 0 && separates(sep, s[0]) {
        trim_start_by(s.drop_first(), sep)
    } else {
        s
    }
}

/// `s` without its trailing separator characters.
pub open spec fn trim_end_by(s: Seq<char>, sep: Separator) -> Seq<char>
    decreases s.len(),
{
    if s.len() > 0 && separates(sep, s.last()) {
        trim_end_by(s.drop_last(), sep)
    } else {
        s
    }
}

/// `s` without leading or trailing separator characters (`str::trim_matches`).
pub open spec fn trim_by(s: Seq<char>, sep: Separator) -> Seq<char> {
    trim_end_by(trim_start_by(s, sep), sep)
}

/// `s` without leading whitespace (`str::trim_start`).
pub open spec fn trim_start(s: Seq<char>) -> Seq<char> {
    trim_start_by(s, Separator::Whitespace)
}

/// `s` without trailing whitespace (`str::trim_end`).
pub open spec fn trim_end(s: Seq<char>) -> Seq<char> {
    trim_end_by(s, Separator::Whitespace)
}

/// `s` without leading or trailing whitespace (`str::trim`).
pub open spec fn trim(s: Seq<char>) -> Seq<char> {
    trim_by(s, Separator::Whitespace)
}

/// The pieces of `s` between separators, empty pieces included: as many
/// pieces as there are separators plus one (`str::split` with a char class).
pub open spec fn split(s: Seq<char>, sep: Separator) -> Seq<Seq<char>>
    decreases s.len(),
{
    if s.len() == 0 {
        seq![Seq::<char>::empty()]
    } else {
        let r = split(s.drop_last(), sep);
        if separates(sep, s.last()) {
            r.push(Seq::<char>::empty())
        } else {
            r.update(r.len() - 1, r.last().push(s.last()))
        }
    }
}

/// The non-empty pieces among `ps`, in order.
pub open spec fn non_empty(ps: Seq<Seq<char>>) -> Seq<Seq<char>>
    decreases ps.len(),
{
    if ps.len() == 0 {
        ps
    } else {
        let r = non_empty(ps.drop_last());
        if ps.last().len() > 0 {
            r.push(ps.last())
        } else {
            r
        }
    }
}

/// The maximal runs of non-whitespace characters of `s` (`str::split_whitespace`).
pub open spec fn words(s: Seq<char>) -> Seq<Seq<char>> {
    non_empty(split(s, Separator::Whitespace))
}

/// The pieces `ps` joined with `sep` between each two of them.
pub open spec fn join(ps: Seq<Seq<char>>, sep: Seq<char>) -> Seq<char>
    decreases ps.len(),
{
    if ps.len() == 0 {
        Seq::<char>::empty()
    } else if ps.len() == 1 {
        ps[0]
    } else {
        join(ps.drop_last(), sep) + sep + ps.last()
    }
}

/// A line without the carriage return that ends it, if any.
pub open spec fn strip_cr(l: Seq<char>) -> Seq<char> {
    if l.len() > 0 && l.last() == '\r' {
        l.drop_last()
    } else {
        l
    }
}

/// The lines of `s` as `str::lines` yields them: split at `\n`, a `\r` before
/// a `\n` removed, and no final empty line after a trailing `\n`.
pub open spec fn lines(s: Seq<char>) -> Seq<Seq<char>> {
    let p = split(s, Separator::Newline);
    let init = p.drop_last().map_values(|l: Seq<char>| strip_cr(l));
    if p.last().len() == 0 {
        init
    } else {
        init.push(p.last())
    }
}

/// The character sequences held by a vector of character vectors.
pub open spec fn views(vs: Seq<Vec<char>>) -> Seq<Seq<char>> {
    vs.map_values(|v: Vec<char>| v@)
}

pub proof fn lemma_split_nonempty(s: Seq<char>, sep: Separator)
    ensures
        split(s, sep).len() >= 1,
    decreases s.len(),
{
    if s.len() > 0 {
        lemma_split_nonempty(s.drop_last(), sep);
    }
}

/// The characters of a string slice, one by one.
pub fn chars_of(s: &str) -> (v: Vec<char>)
    ensures
        v@ == s@,
{
    let mut v: Vec<char> = Vec::new();
    for c in it: s.chars()
        invariant
            v@ == it.seq().take(it.index() as int),
            it.seq() == s@,
    {
        v.push(c);
    }
    v
}

} // verus!

verus! {

pub fn separator(sep: Separator, c: char) -> (r: bool)
    ensures
        r == separates(sep, c),
{
    match sep {
        Separator::Newline => c == '\n',
        Separator::Whitespace => whitespace(c),
        Separator::NonAlphanumeric => !is_alphanumeric(c),
        Separator::Char(d) => c == d,
    }
}

/// The characters `v[a..b]`.
pub fn slice_chars(v: &Vec<char>, a: usize, b: usize) -> (r: Vec<char>)
    requires
        a <= b <= v.len(),
    ensures
        r@ == v@.subrange(a as int, b as int),
{
    let mut r: Vec<char> = Vec::new();
    let mut i = a;
    while i < b
        invariant
            a <= i <= b <= v.len(),
            r@ == v@.subrange(a as int, i as int),
        decreases b - i,
    {
        r.push(v[i]);
        i += 1;
    }
    r
}

/// Whether two character sequences are equal.
pub fn chars_eq(a: &Vec<char>, b: &Vec<char>) -> (r: bool)
    ensures
        r == (a@ == b@),
{
    if a.len() != b.len() {
        return false;
    }
    let mut i: usize = 0;
    while i < a.len()
        invariant
            a.len() == b.len(),
            i <= a.len(),
            a@.take(i as int) == b@.take(i as int),
        decreases a.len() - i,
    {
        if a[i] != b[i] {
            assert(a@[i as int] != b@[i as int]);
            return false;
        }
        assert(a@.take(i + 1) == a@.take(i as int).push(a@[i as int]));
        assert(b@.take(i + 1) == b@.take(i as int).push(b@[i as int]));
        i += 1;
    }
    assert(a@ == a@.take(a.len() as int));
    assert(b@ == b@.take(b.len() as int));
    true
}

pub proof fn lemma_trim_start_sub(s: Seq<char>, i: int, sep: Separator)
    requires
        0 <= i < s.len(),
        separates(sep, s[i]),
    ensures
        trim_start_by(s.subrange(i, s.len() as int), sep) == trim_start_by(
            s.subrange(i + 1, s.len() as int),
            sep,
        ),
{
    assert(s.subrange(i, s.len() as int).drop_first() == s.subrange(i + 1, s.len() as int));
}

pub proof fn lemma_trim_end_sub(s: Seq<char>, j: int, sep: Separator)
    requires
        0 < j <= s.len(),
        separates(sep, s[j - 1]),
    ensures
        trim_end_by(s.subrange(0, j), sep) == trim_end_by(s.subrange(0, j - 1), sep),
{
    assert(s.subrange(0, j).drop_last() == s.subrange(0, j - 1));
}

/// `v` without leading separator characters.
pub fn trim_start_chars_by(v: &Vec<char>, sep: Separator) -> (r: Vec<char>)
    ensures
        r@ == trim_start_by(v@, sep),
{
    let n = v.len();
    let mut i: usize = 0;
    assert(v@.subrange(0, n as int) == v@);
    while i < n && separator(sep, v[i])
        invariant
            i <= n == v.len(),
            trim_start_by(v@, sep) == trim_start_by(v@.subrange(i as int, n as int), sep),
        decreases n - i,
    {
        proof {
            lemma_trim_start_sub(v@, i as int, sep);
        }
        i += 1;
    }
    slice_chars(v, i, n)
}

/// `v` without trailing separator characters.
pub fn trim_end_chars_by(v: &Vec<char>, sep: Separator) -> (r: Vec<char>)
    ensures
        r@ == trim_end_by(v@, sep),
{
    let n = v.len();
    let mut j: usize = n;
    assert(v@.subrange(0, n as int) == v@);
    while j > 0 && separator(sep, v[j - 1])
        invariant
            j <= n == v.len(),
            trim_end_by(v@, sep) == trim_end_by(v@.subrange(0, j as int), sep),
        decreases j,
    {
        proof {
            lemma_trim_end_sub(v@, j as int, sep);
        }
        j -= 1;
    }
    slice_chars(v, 0, j)
}

/// `v` without leading and trailing separator characters.
pub fn trim_chars_by(v: &Vec<char>, sep: Separator) -> (r: Vec<char>)
    ensures
        r@ == trim_by(v@, sep),
{
    let t = trim_start_chars_by(v, sep);
    trim_end_chars_by(&t, sep)
}

/// `v` without trailing whitespace.
pub fn trim_end_chars(v: &Vec<char>) -> (r: Vec<char>)
    ensures
        r@ == trim_end(v@),
{
    trim_end_chars_by(v, Separator::Whitespace)
}

/// `v` without leading and trailing whitespace.
pub fn trim_chars(v: &Vec<char>) -> (r: Vec<char>)
    ensures
        r@ == trim(v@),
{
    trim_chars_by(v, Separator::Whitespace)
}

/// The pieces of `v` between separators (see `split`).
pub fn split_chars(v: &Vec<char>, sep: Separator) -> (r: Vec<Vec<char>>)
    ensures
        views(r@) == split(v@, sep),
{
    let mut done: Vec<Vec<char>> = Vec::new();
    let mut cur: Vec<char> = Vec::new();
    let n = v.len();
    let mut i: usize = 0;
    while i < n
        invariant
            i <= n == v.len(),
            views(done@).push(cur@) == split(v@.take(i as int), sep),
        decreases n - i,
    {
        let c = v[i];
        let ghost pre = v@.take(i as int);
        assert(v@.take(i + 1).drop_last() == pre);
        proof {
            lemma_split_nonempty(pre, sep);
        }
        if separator(sep, c) {
            let old_cur = cur;
            cur = Vec::new();
            done.push(old_cur);
            assert(views(done@).push(cur@) =~= split(v@.take(i + 1), sep));
        } else {
            cur.push(c);
            assert(views(done@).push(cur@) =~= split(v@.take(i + 1), sep));
        }
        i += 1;
    }
    assert(v@.take(n as int) == v@);
    done.push(cur);
    assert(views(done@) =~= split(v@, sep));
    done
}

} // verus!

verus! {

/// The non-empty pieces among `ps`, in order (see `non_empty`).
pub fn non_empty_pieces(ps: &Vec<Vec<char>>) -> (r: Vec<Vec<char>>)
    ensures
        views(r@) == non_empty(views(ps@)),
{
    let ghost all = views(ps@);
    let mut r: Vec<Vec<char>> = Vec::new();
    let n = ps.len();
    let mut i: usize = 0;
    while i < n
        invariant
            i <= n == ps@.len() == all.len(),
            all == views(ps@),
            views(r@) == non_empty(all.take(i as int)),
        decreases n - i,
    {
        let p = &ps[i];
        assert(all.take(i + 1).drop_last() =~= all.take(i as int));
        assert(all.take(i + 1).last() == p@);
        if p.len() > 0 {
            let q = slice_chars(p, 0, p.len());
            assert(q@ =~= p@);
            r.push(q);
            assert(views(r@) =~= non_empty(all.take(i + 1)));
        } else {
            assert(views(r@) =~= non_empty(all.take(i + 1)));
        }
        i += 1;
    }
    assert(all.take(n as int) =~= all);
    r
}

/// The pieces joined with `sep` between each two of them (see `join`).
pub fn join_chars(ps: &Vec<Vec<char>>, sep: &Vec<char>) -> (r: Vec<char>)
    ensures
        r@ == join(views(ps@), sep@),
{
    let ghost all = views(ps@);
    let mut r: Vec<char> = Vec::new();
    let n = ps.len();
    let mut i: usize = 0;
    while i < n
        invariant
            i <= n == ps@.len() == all.len(),
            all == views(ps@),
            r@ == join(all.take(i as int), sep@),
        decreases n - i,
    {
        assert(all.take(i + 1).drop_last() =~= all.take(i as int));
        assert(all.take(i + 1).last() == ps@[i as int]@);
        if i > 0 {
            let mut k: usize = 0;
            let ghost r0 = r@;
            while k < sep.len()
                invariant
                    k <= sep.len(),
                    r@ == r0 + sep@.take(k as int),
                decreases sep.len() - k,
            {
                r.push(sep[k]);
                assert(sep@.take(k + 1) =~= sep@.take(k as int).push(sep@[k as int]));
                k += 1;
            }
            assert(sep@.take(sep.len() as int) =~= sep@);
        } else {
            assert(all.take(1) =~= seq![all[0]]);
        }
        let piece = &ps[i];
        let mut k: usize = 0;
        let ghost r1 = r@;
        while k < piece.len()
            invariant
                k <= piece.len(),
                r@ == r1 + piece@.take(k as int),
            decreases piece.len() - k,
        {
            r.push(piece[k]);
            assert(piece@.take(k + 1) =~= piece@.take(k as int).push(piece@[k as int]));
            k += 1;
        }
        assert(piece@.take(piece.len() as int) =~= piece@);
        if i == 0 {
            assert(r@ =~= join(all.take(1), sep@));
        } else {
            assert(r@ =~= join(all.take(i + 1), sep@));
        }
        i += 1;
    }
    assert(all.take(n as int) =~= all);
    r
}

} // verus!

verus! {

/// The lines of `v` (see `lines`).
pub fn lines_chars(v: &Vec<char>) -> (r: Vec<Vec<char>>)
    ensures
        views(r@) == lines(v@),
{
    let p = split_chars(v, Separator::Newline);
    proof {
        lemma_split_nonempty(v@, Separator::Newline);
    }
    let ghost pv = views(p@);
    let n = p.len();
    let mut r: Vec<Vec<char>> = Vec::new();
    let mut i: usize = 0;
    while i + 1 < n
        invariant
            1 <= n == p@.len() == pv.len(),
            pv == views(p@),
            i + 1 <= n,
            views(r@) == pv.take(i as int).map_values(|l: Seq<char>| strip_cr(l)),
        decreases n - i,
    {
        let piece = &p[i];
        let k = piece.len();
        let line = if k > 0 && piece[k - 1] == '\r' {
            slice_chars(piece, 0, k - 1)
        } else {
            slice_chars(piece, 0, k)
        };
        assert(pv[i as int] == piece@);
        assert(line@ =~= strip_cr(pv[i as int]));
        let ghost before = views(r@);
        r.push(line);
        assert(views(r@) =~= before.push(line@));
        assert(views(r@) =~= pv.take(i + 1).map_values(|l: Seq<char>| strip_cr(l)));
        i += 1;
    }
    assert(pv.take(i as int) =~= pv.drop_last());
    let last = &p[n - 1];
    if last.len() > 0 {
        let q = slice_chars(last, 0, last.len());
        assert(q@ =~= pv.last());
        r.push(q);
        assert(views(r@) =~= lines(v@));
    }
    r
}

/// The whitespace-separated words of `v` (see `words`).
pub fn words_chars(v: &Vec<char>) -> (r: Vec<Vec<char>>)
    ensures
        views(r@) == words(v@),
{
    let p = split_chars(v, Separator::Whitespace);
    non_empty_pieces(&p)
}

/// Appends one character to a `String` (`String::push`).
#[verifier::external_body]
fn string_push(s: &mut String, c: char)
    ensures
        final(s)@ == old(s)@.push(c),
{
    s.push(c)
}

/// A `String` holding exactly the characters `v`.
pub fn string_of(v: &Vec<char>) -> (s: String)
    ensures
        s@ == v@,
{
    let mut s = String::new();
    let mut i: usize = 0;
    while i < v.len()
        invariant
            i <= v.len(),
            s@ == v@.take(i as int),
        decreases v.len() - i,
    {
        string_push(&mut s, v[i]);
        assert(v@.take(i + 1) =~= v@.take(i as int).push(v@[i as int]));
        i += 1;
    }
    assert(v@.take(v.len() as int) =~= v@);
    s
}

} // verus!

verus! {

// ── splitting and joining undo each other ───────────────────────────────────

/// Appending text without separators extends the last piece.
pub proof fn lemma_split_append(a: Seq<char>, b: Seq<char>, sep: Separator)
    requires
        forall|i: int| 0 <= i < b.len() ==> !separates(sep, #[trigger] b[i]),
    ensures
        split(a + b, sep) == split(a, sep).update(
            split(a, sep).len() - 1,
            split(a, sep).last() + b,
        ),
    decreases b.len(),
{
    lemma_split_nonempty(a, sep);
    if b.len() == 0 {
        assert(a + b =~= a);
        assert(split(a, sep).last() + b =~= split(a, sep).last());
        assert(split(a, sep).update(split(a, sep).len() - 1, split(a, sep).last())
            =~= split(a, sep));
    } else {
        let b0 = b.drop_last();
        lemma_split_append(a, b0, sep);
        assert((a + b).drop_last() =~= a + b0);
        assert((a + b).last() == b.last());
        lemma_split_nonempty(a + b0, sep);
        let r = split(a + b0, sep);
        assert(r.last() =~= split(a, sep).last() + b0);
        assert(!separates(sep, b[b.len() - 1]));
        assert(r.len() == split(a, sep).len());
        assert(r.last().push(b.last()) =~= split(a, sep).last() + b);
        assert(split(a + b, sep) == r.update(r.len() - 1, r.last().push((a + b).last())));
        assert(split(a + b, sep) =~= split(a, sep).update(
            split(a, sep).len() - 1,
            split(a, sep).last() + b,
        ));
    }
}

/// Joining pieces without separators at a separator, then splitting, gives
/// the pieces back.
pub proof fn lemma_split_join(ps: Seq<Seq<char>>, c: char, sep: Separator)
    requires
        ps.len() >= 1,
        separates(sep, c),
        forall|k: int, i: int|
            0 <= k < ps.len() && 0 <= i < ps[k].len() ==> !separates(sep, #[trigger] ps[k][i]),
    ensures
        split(join(ps, seq![c]), sep) == ps,
    decreases ps.len(),
{
    if ps.len() == 1 {
        let e = Seq::<char>::empty();
        assert(forall|i: int| 0 <= i < ps[0].len() ==> !separates(sep, #[trigger] ps[0][i]));
        lemma_split_append(e, ps[0], sep);
        assert(e + ps[0] =~= ps[0]);
        assert(split(e, sep) =~= seq![e]);
        assert(split(ps[0], sep) =~= ps);
    } else {
        let init = ps.drop_last();
        let last = ps.last();
        assert(forall|k: int, i: int|
            0 <= k < init.len() && 0 <= i < init[k].len() ==> #[trigger] init[k][i] == ps[k][i]);
        lemma_split_join(init, c, sep);
        let a = join(init, seq![c]) + seq![c];
        assert(a.drop_last() =~= join(init, seq![c]));
        assert(split(a, sep) =~= init.push(Seq::<char>::empty()));
        assert(forall|i: int| 0 <= i < last.len() ==> !separates(sep, #[trigger] last[i]));
        lemma_split_append(a, last, sep);
        assert(Seq::<char>::empty() + last =~= last);
        assert(split(a + last, sep) =~= ps);
        assert(join(ps, seq![c]) == a + last);
    }
}

/// Extending the last piece extends the joined text.
pub proof fn lemma_join_extend_last(ps: Seq<Seq<char>>, y: Seq<char>, sep: Seq<char>)
    requires
        ps.len() >= 1,
    ensures
        join(ps.update(ps.len() - 1, ps.last() + y), sep) == join(ps, sep) + y,
{
    let qs = ps.update(ps.len() - 1, ps.last() + y);
    if ps.len() == 1 {
    } else {
        assert(qs.drop_last() =~= ps.drop_last());
        assert(join(qs, sep) =~= join(ps, sep) + y);
    }
}

/// Splitting at a separator class, then joining with the one separator
/// character that occurs, gives the text back.
pub proof fn lemma_join_split(l: Seq<char>, c: char, sep: Separator)
    requires
        forall|i: int| 0 <= i < l.len() && separates(sep, #[trigger] l[i]) ==> l[i] == c,
    ensures
        join(split(l, sep), seq![c]) == l,
    decreases l.len(),
{
    if l.len() == 0 {
        assert(l =~= Seq::<char>::empty());
        assert(split(l, sep) =~= seq![l]);
    } else {
        let init = l.drop_last();
        assert(forall|i: int| 0 <= i < init.len() ==> #[trigger] init[i] == l[i]);
        lemma_join_split(init, c, sep);
        lemma_split_nonempty(init, sep);
        let r = split(init, sep);
        if separates(sep, l.last()) {
            assert(split(l, sep) == r.push(Seq::<char>::empty()));
            assert(r.push(Seq::<char>::empty()).drop_last() =~= r);
            assert(join(r.push(Seq::<char>::empty()), seq![c]) =~= init + seq![c]);
            assert(init + seq![c] =~= l);
        } else {
            lemma_join_extend_last(r, seq![l.last()], seq![c]);
            assert(r.last().push(l.last()) =~= r.last() + seq![l.last()]);
            assert(init + seq![l.last()] =~= l);
        }
    }
}

} // verus!

verus! {

/// Trimming the end leaves a prefix.
pub proof fn lemma_trim_end_prefix(s: Seq<char>, sep: Separator)
    ensures
        trim_end_by(s, sep).len() <= s.len(),
        trim_end_by(s, sep) == s.take(trim_end_by(s, sep).len() as int),
    decreases s.len(),
{
    if s.len() > 0 && separates(sep, s.last()) {
        lemma_trim_end_prefix(s.drop_last(), sep);
        let t = trim_end_by(s.drop_last(), sep);
        assert(s.drop_last().take(t.len() as int) =~= s.take(t.len() as int));
    } else {
        assert(s.take(s.len() as int) =~= s);
    }
}

/// Trimming the start leaves a suffix.
pub proof fn lemma_trim_start_suffix(s: Seq<char>, sep: Separator)
    ensures
        trim_start_by(s, sep).len() <= s.len(),
        trim_start_by(s, sep) == s.skip(s.len() - trim_start_by(s, sep).len()),
    decreases s.len(),
{
    if s.len() > 0 && separates(sep, s[0]) {
        lemma_trim_start_suffix(s.drop_first(), sep);
        let t = trim_start_by(s.drop_first(), sep);
        assert(s.drop_first().skip(s.len() - 1 - t.len()) =~= s.skip(s.len() - t.len()));
    } else {
        assert(s.skip(0) =~= s);
    }
}

/// Trimming leaves a stretch of the text.
pub proof fn lemma_trim_within(s: Seq<char>, sep: Separator)
    ensures
        trim_by(s, sep).len() <= s.len(),
        forall|i: int|
            0 <= i < trim_by(s, sep).len() ==> exists|j: int|
                0 <= j < s.len() && #[trigger] trim_by(s, sep)[i] == s[j],
{
    lemma_trim_start_suffix(s, sep);
    let a = trim_start_by(s, sep);
    lemma_trim_end_prefix(a, sep);
    let t = trim_by(s, sep);
    let off = s.len() - a.len();
    assert forall|i: int| 0 <= i < t.len() implies exists|j: int|
        0 <= j < s.len() && #[trigger] t[i] == s[j] by {
        assert(t[i] == a[i]);
        assert(a[i] == s[off + i]);
    }
}

/// Splitting at a separator that stands between two texts splits each of them.
pub proof fn lemma_split_concat(a: Seq<char>, c: char, b: Seq<char>, sep: Separator)
    requires
        separates(sep, c),
    ensures
        split(a + seq![c] + b, sep) == split(a, sep) + split(b, sep),
    decreases b.len(),
{
    lemma_split_nonempty(a, sep);
    let s = a + seq![c] + b;
    let pa = split(a, sep);
    if b.len() == 0 {
        assert(s.drop_last() =~= a);
        assert(s.last() == c);
        assert(split(b, sep) =~= seq![Seq::<char>::empty()]);
        assert(pa.push(Seq::<char>::empty()) =~= pa + seq![Seq::<char>::empty()]);
    } else {
        let bi = b.drop_last();
        lemma_split_concat(a, c, bi, sep);
        lemma_split_nonempty(bi, sep);
        assert(s.drop_last() =~= a + seq![c] + bi);
        assert(s.last() == b.last());
        let r = split(bi, sep);
        if separates(sep, b.last()) {
            assert((pa + r).push(Seq::<char>::empty()) =~= pa + r.push(Seq::<char>::empty()));
        } else {
            let q = pa + r;
            assert(q.last() == r.last());
            assert(q.update(q.len() - 1, q.last().push(b.last())) =~= pa + r.update(
                r.len() - 1,
                r.last().push(b.last()),
            ));
        }
    }
}

/// A text without separators is one piece.
pub proof fn lemma_split_single(s: Seq<char>, sep: Separator)
    requires
        forall|i: int| 0 <= i < s.len() ==> !separates(sep, #[trigger] s[i]),
    ensures
        split(s, sep) == seq![s],
{
    let e = Seq::<char>::empty();
    lemma_split_append(e, s, sep);
    assert(e + s =~= s);
    assert(split(e, sep) =~= seq![e]);
    assert(seq![e].update(0, e + s) =~= seq![s]);
}

/// Text without separators put before other text joins its first piece.
pub proof fn lemma_split_prefix(a: Seq<char>, b: Seq<char>, sep: Separator)
    requires
        forall|i: int| 0 <= i < a.len() ==> !separates(sep, #[trigger] a[i]),
    ensures
        split(a + b, sep) == split(b, sep).update(0, a + split(b, sep)[0]),
    decreases b.len(),
{
    lemma_split_nonempty(b, sep);
    if b.len() == 0 {
        lemma_split_single(a, sep);
        assert(a + b =~= a);
        assert(b =~= Seq::<char>::empty());
        assert(split(b, sep) =~= seq![b]);
        assert(seq![b].update(0, a + b) =~= seq![a]);
    } else {
        let bi = b.drop_last();
        let c = b.last();
        lemma_split_prefix(a, bi, sep);
        lemma_split_nonempty(bi, sep);
        assert((a + b).drop_last() =~= a + bi);
        assert((a + b).last() == c);
        let r = split(bi, sep);
        let q = r.update(0, a + r[0]);
        if separates(sep, c) {
            assert(q.push(Seq::<char>::empty()) =~= r.push(Seq::<char>::empty()).update(
                0,
                a + r.push(Seq::<char>::empty())[0],
            ));
        } else {
            let rb = r.update(r.len() - 1, r.last().push(c));
            if r.len() == 1 {
                assert((a + r[0]).push(c) =~= a + r[0].push(c));
                assert(q.update(q.len() - 1, q.last().push(c)) =~= rb.update(0, a + rb[0]));
            } else {
                assert(q.update(q.len() - 1, q.last().push(c)) =~= rb.update(0, a + rb[0]));
            }
        }
    }
}

/// Joining two non-empty runs of pieces gives their joins with one separator
/// between them.
pub proof fn lemma_join_concat(ps: Seq<Seq<char>>, qs: Seq<Seq<char>>, sep: Seq<char>)
    requires
        ps.len() > 0,
        qs.len() > 0,
    ensures
        join(ps + qs, sep) == join(ps, sep) + sep + join(qs, sep),
    decreases qs.len(),
{
    let t = ps + qs;
    if qs.len() == 1 {
        assert(t.drop_last() =~= ps);
        assert(t.last() == qs[0]);
    } else {
        lemma_join_concat(ps, qs.drop_last(), sep);
        assert(t.drop_last() =~= ps + qs.drop_last());
        assert(t.last() == qs.last());
        assert(join(ps, sep) + sep + join(qs.drop_last(), sep) + sep + qs.last() =~= join(ps, sep)
            + sep + (join(qs.drop_last(), sep) + sep + qs.last()));
    }
}

/// No piece holds a separator.
pub proof fn lemma_split_no_sep(s: Seq<char>, sep: Separator)
    ensures
        forall|k: int, j: int|
            0 <= k < split(s, sep).len() && 0 <= j < split(s, sep)[k].len() ==> !separates(
                sep,
                #[trigger] split(s, sep)[k][j],
            ),
    decreases s.len(),
{
    if s.len() > 0 {
        lemma_split_no_sep(s.drop_last(), sep);
        lemma_split_nonempty(s.drop_last(), sep);
        let r = split(s.drop_last(), sep);
        let p = split(s, sep);
        if !separates(sep, s.last()) {
            assert forall|k: int, j: int| 0 <= k < p.len() && 0 <= j < p[k].len() implies !separates(
                sep,
                #[trigger] p[k][j],
            ) by {
                if k == p.len() - 1 && j == r.last().len() {
                    assert(p[k][j] == s.last());
                } else {
                    assert(p[k][j] == r[k][j]);
                }
            }
        }
    }
}

/// A text without lines is empty.
pub proof fn lemma_no_lines_empty(s: Seq<char>)
    ensures
        lines(s).len() == 0 ==> s.len() == 0,
{
    let p = split(s, Separator::Newline);
    lemma_split_nonempty(s, Separator::Newline);
    if s.len() > 0 && lines(s).len() == 0 {
        lemma_split_nonempty(s.drop_last(), Separator::Newline);
        if separates(Separator::Newline, s.last()) {
            assert(p.len() >= 2);
        } else {
            assert(p.last().len() > 0);
        }
    }
}

/// No line holds a newline.
pub proof fn lemma_lines_no_newline(s: Seq<char>)
    ensures
        forall|k: int, j: int|
            0 <= k < lines(s).len() && 0 <= j < lines(s)[k].len() ==> #[trigger] lines(s)[k][j]
                != '\n',
{
    lemma_split_no_sep(s, Separator::Newline);
    lemma_split_nonempty(s, Separator::Newline);
    let p = split(s, Separator::Newline);
    assert forall|k: int, j: int|
        0 <= k < lines(s).len() && 0 <= j < lines(s)[k].len() implies #[trigger] lines(s)[k][j]
        != '\n' by {
        if k < p.len() - 1 {
            assert(lines(s)[k] == strip_cr(p[k]));
            assert(lines(s)[k][j] == p[k][j]);
        } else {
            assert(lines(s)[k][j] == p[p.len() - 1][j]);
        }
    }
}

} // verus!

verus! {

/// Appends the characters of `s` to `r`.
pub fn append_str(r: &mut Vec<char>, s: &str)
    ensures
        final(r)@ == old(r)@ + s@,
{
    let v = chars_of(s);
    let mut i: usize = 0;
    while i < v.len()
        invariant
            i <= v.len(),
            v@ == s@,
            r@ == old(r)@ + v@.take(i as int),
        decreases v.len() - i,
    {
        r.push(v[i]);
        assert(v@.take(i + 1) =~= v@.take(i as int).push(v@[i as int]));
        i += 1;
    }
    assert(v@.take(v.len() as int) =~= v@);
}

/// Appends the characters `s` to `r`.
pub fn append_chars(r: &mut Vec<char>, s: &Vec<char>)
    ensures
        final(r)@ == old(r)@ + s@,
{
    let mut i: usize = 0;
    while i < s.len()
        invariant
            i <= s.len(),
            r@ == old(r)@ + s@.take(i as int),
        decreases s.len() - i,
    {
        r.push(s[i]);
        assert(s@.take(i + 1) =~= s@.take(i as int).push(s@[i as int]));
        i += 1;
    }
    assert(s@.take(s.len() as int) =~= s@);
}

/// An owned copy of `s`.
pub fn owned(s: &str) -> (r: String)
    ensures
        r@ == s@,
{
    string_of(&chars_of(s))
}

} // verus!

verus! {

/// `s` starts with `p`.
pub open spec fn has_prefix(s: Seq<char>, p: Seq<char>) -> bool {
    p.len() <= s.len() && s.take(p.len() as int) == p
}

/// Whether `v[i..]` starts with `p`.
pub fn prefix_at(v: &Vec<char>, i: usize, p: &Vec<char>) -> (r: bool)
    requires
        i <= v.len(),
    ensures
        r == has_prefix(v@.skip(i as int), p@),
{
    if p.len() > v.len() - i {
        return false;
    }
    let piece = slice_chars(v, i, i + p.len());
    assert(piece@ =~= v@.skip(i as int).take(p.len() as int));
    chars_eq(&piece, p)
}

} // verus!
