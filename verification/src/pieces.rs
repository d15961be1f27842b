//! Taking strings apart into pieces and putting pieces together.

use crate::text;
use crate::text::{
    begins_with, count, cut, find_chars, find_str, finishes_with, from_chars, lead_chars, to_chars, without_first,
    CharSet,
};
use vstd::prelude::*;

verus! {

broadcast use crate::text::views_push;

/// A line without the carriage return that its line feed follows.
pub open spec fn chomp(line: Seq<char>) -> Seq<char> {
    if line.len() > 0 && line.last() == '\r' {
        line.drop_last()
    } else {
        line
    }
}

/// The position of the first `c`, or the length of `s`.
pub open spec fn upto(s: Seq<char>, c: char) -> nat
    decreases s.len(),
{
    if s.len() == 0 || s[0] == c {
        0
    } else {
        1 + upto(s.skip(1), c)
    }
}

pub proof fn upto_bound(s: Seq<char>, c: char)
    ensures
        upto(s, c) <= s.len(),
        upto(s, c) < s.len() ==> s[upto(s, c) as int] == c,
        forall|i: int| 0 <= i < upto(s, c) ==> #[trigger] s[i] != c,
    decreases s.len(),
{
    if s.len() == 0 || s[0] == c {
    } else {
        upto_bound(s.skip(1), c);
        assert forall|i: int| 0 <= i < upto(s, c) implies #[trigger] s[i] != c by {
            if i > 0 {
                assert(s.skip(1)[i - 1] == s[i]);
            }
        }
    }
}

pub fn upto_char(v: &Vec<char>, from: usize, c: char) -> (n: usize)
    requires
        from <= v.len(),
    ensures
        n == upto(v@.skip(from as int), c),
        from + n <= v.len(),
{
    let mut i: usize = from;
    while i < v.len()
        invariant
            from <= i <= v.len(),
            upto(v@.skip(from as int), c) == (i - from) + upto(v@.skip(i as int), c),
        decreases v.len() - i,
    {
        if v[i] == c {
            return i - from;
        }
        assert(v@.skip(i as int).skip(1) =~= v@.skip(i + 1));
        i += 1;
    }
    i - from
}

/// The lines of `s`: a line ends at `\n` or `\r\n`, and the last one may go
/// without.
pub open spec fn lines(s: Seq<char>) -> Seq<Seq<char>>
    decreases s.len(),
    via lines_end
{
    if s.len() == 0 {
        Seq::empty()
    } else if upto(s, '\n') == s.len() {
        seq![s]
    } else {
        seq![chomp(s.take(upto(s, '\n') as int))] + lines(s.skip(upto(s, '\n') as int + 1))
    }
}

#[via_fn]
proof fn lines_end(s: Seq<char>) {
    upto_bound(s, '\n');
}

/// A line that ends comes before the lines behind it.
pub proof fn lines_in_front(line: Seq<char>, rest: Seq<char>)
    requires
        !line.contains('\n'),
    ensures
        lines(line + "\n"@ + rest) == seq![chomp(line)] + lines(rest),
{
    reveal_strlit("\n");
    let s = line + "\n"@ + rest;
    let n = upto(s, '\n') as int;
    upto_bound(s, '\n');
    assert(s[line.len() as int] == '\n');
    if n < line.len() {
        assert(line[n] == s[n]);
    }
    assert(n == line.len());
    assert(s.take(n) =~= line);
    assert(s.skip(n + 1) =~= rest);
}

/// A line feed ends a line, alone or behind a carriage return; neither
/// belongs to the line.
pub proof fn line_ends_are_dropped(line: Seq<char>, rest: Seq<char>)
    requires
        !line.contains('\n'),
        line.len() == 0 || line.last() != '\r',
    ensures
        lines(line + "\n"@ + rest) == seq![line] + lines(rest),
        lines(line + "\r\n"@ + rest) == seq![line] + lines(rest),
{
    reveal_strlit("\n");
    reveal_strlit("\r\n");
    lines_in_front(line, rest);
    let l = line.push('\r');
    if l.contains('\n') {
        let i = choose|i: int| 0 <= i < l.len() && l[i] == '\n';
        assert(line[i] == '\n');
    }
    lines_in_front(l, rest);
    assert(l.drop_last() =~= line);
    assert(l + "\n"@ + rest =~= line + "\r\n"@ + rest);
}

/// Behind a line that has ended, lines go on as they would alone.
pub proof fn lines_apart(a: Seq<char>, b: Seq<char>)
    requires
        a.len() == 0 || a.last() == '\n',
    ensures
        lines(a + b) == lines(a) + lines(b),
    decreases a.len(),
{
    if a.len() == 0 {
        assert(a + b =~= b);
        assert(lines(a) + lines(b) =~= lines(b));
    } else {
        let n = upto(a, '\n') as int;
        let m = upto(a + b, '\n') as int;
        upto_bound(a, '\n');
        upto_bound(a + b, '\n');
        assert(a[a.len() - 1] == '\n');
        assert((a + b)[n] == '\n');
        if m < n {
            assert(a[m] == (a + b)[m]);
        }
        assert(m == n);
        let rest = a.skip(n + 1);
        lines_apart(rest, b);
        assert((a + b).take(n) =~= a.take(n));
        assert((a + b).skip(n + 1) =~= rest + b);
        assert(lines(a + b) =~= lines(a) + lines(b));
    }
}

/// A line without its end is the one line.
pub proof fn lines_of_one(line: Seq<char>)
    requires
        !line.contains('\n'),
        line.len() > 0,
    ensures
        lines(line) == seq![line],
{
    upto_bound(line, '\n');
    if upto(line, '\n') < line.len() {
        assert(line[upto(line, '\n') as int] == '\n');
    }
}

/// No line holds a line feed.
pub proof fn lines_are_unbroken(s: Seq<char>, i: int)
    requires
        0 <= i < lines(s).len(),
    ensures
        !lines(s)[i].contains('\n'),
    decreases s.len(),
{
    upto_bound(s, '\n');
    let n = upto(s, '\n') as int;
    if n < s.len() {
        if i > 0 {
            lines_are_unbroken(s.skip(n + 1), i - 1);
            assert(lines(s)[i] == lines(s.skip(n + 1))[i - 1]);
        } else {
            let l = chomp(s.take(n));
            assert(lines(s)[0] == l);
            if l.contains('\n') {
                let k = l.index_of('\n');
                assert(s[k] == '\n');
            }
        }
    } else if s.contains('\n') {
        let k = s.index_of('\n');
        assert(s[k] == '\n');
    }
}

/// The lines of `s`.
pub fn lines_of(s: &str) -> (r: Vec<String>)
    ensures
        text::views(r@) == lines(s@),
{
    let v = to_chars(s);
    let mut out: Vec<String> = Vec::new();
    let mut i: usize = 0;
    proof {
        text::views_empty();
        assert(v@.skip(0) =~= v@);
        assert(text::views(out@) + lines(v@.skip(0)) =~= lines(s@));
    }
    while i < v.len()
        invariant
            i <= v.len(),
            v@ == s@,
            text::views(out@) + lines(v@.skip(i as int)) == lines(s@),
        decreases v.len() - i,
    {
        let ghost rest = v@.skip(i as int);
        let ghost before = text::views(out@);
        let n: usize = upto_char(&v, i, '\n');
        proof {
            upto_bound(rest, '\n');
        }
        if i + n == v.len() {
            assert(v@.subrange(i as int, v@.len() as int) =~= rest);
            out.push(from_chars(&v, i, v.len()));
            assert(text::views(out@) =~= before + seq![rest]);
            return out;
        }
        let end: usize = i + n;
        let stop: usize = if n > 0 && v[end - 1] == '\r' { end - 1 } else { end };
        out.push(from_chars(&v, i, stop));
        proof {
            let line = rest.take(n as int);
            if n > 0 {
                assert(rest[n - 1] == v@[end - 1]);
            }
            assert(v@.subrange(i as int, stop as int) =~= chomp(line));
            assert(rest.skip(n + 1) =~= v@.skip(end + 1));
            assert(lines(rest) == seq![chomp(line)] + lines(v@.skip(end + 1)));
            assert(text::views(out@) =~= before.push(chomp(line)));
            assert(text::views(out@) + lines(v@.skip(end + 1)) =~= before + lines(rest));
        }
        i = end + 1;
    }
    assert(lines(v@.skip(i as int)) =~= Seq::<Seq<char>>::empty());
    assert(text::views(out@) =~= lines(s@));
    out
}

/// The first line, or nothing of an empty string.
pub open spec fn first_line(s: Seq<char>) -> Seq<char> {
    if lines(s).len() > 0 {
        lines(s)[0]
    } else {
        Seq::empty()
    }
}

pub fn first_line_of(s: &str) -> (r: String)
    ensures
        r@ == first_line(s@),
{
    let ls = lines_of(s);
    assert(text::views(ls@).len() == ls@.len());
    if ls.len() > 0 {
        assert(text::views(ls@)[0] == ls@[0]@);
        ls[0].clone()
    } else {
        String::new()
    }
}

/// The pieces of `s` between the characters of the set.
pub open spec fn split_set(s: Seq<char>, cs: CharSet<'_>) -> Seq<Seq<char>>
    decreases s.len(),
    via split_set_end
{
    let n = text::lead(s, cs, false);
    if n >= s.len() {
        seq![s]
    } else {
        seq![s.take(n as int)] + split_set(s.skip(n as int + 1), cs)
    }
}

#[via_fn]
proof fn split_set_end(s: Seq<char>, cs: CharSet<'_>) {
    text::lead_bound(s, cs, false);
}

/// The pieces of `s` between the characters of the set.
pub fn split_by(s: &str, cs: CharSet<'_>) -> (r: Vec<String>)
    ensures
        text::views(r@) == split_set(s@, cs),
        r.len() > 0,
{
    let v = to_chars(s);
    let mut out: Vec<String> = Vec::new();
    let mut i: usize = 0;
    proof {
        text::views_empty();
        assert(v@.skip(0) =~= v@);
        assert(text::views(out@) + split_set(v@.skip(0), cs) =~= split_set(s@, cs));
    }
    loop
        invariant
            i <= v.len(),
            v@ == s@,
            text::views(out@) + split_set(v@.skip(i as int), cs) == split_set(s@, cs),
        decreases v.len() - i,
    {
        let ghost rest = v@.skip(i as int);
        let ghost before = text::views(out@);
        let n: usize = lead_chars(&v, i, cs, false);
        if i + n == v.len() {
            assert(v@.subrange(i as int, v@.len() as int) =~= rest);
            out.push(from_chars(&v, i, v.len()));
            assert(text::views(out@) =~= before + seq![rest]);
            return out;
        }
        let end: usize = i + n;
        out.push(from_chars(&v, i, end));
        proof {
            assert(v@.subrange(i as int, end as int) =~= rest.take(n as int));
            assert(rest.skip(n + 1) =~= v@.skip(end + 1));
            assert(text::views(out@) + split_set(v@.skip(end + 1), cs) =~= before + split_set(rest, cs));
        }
        i = end + 1;
    }
}

/// The pieces of `s` between white space, without the empty ones.
pub open spec fn words(s: Seq<char>) -> Seq<Seq<char>>
    decreases s.len(),
    via words_end
{
    let skip = text::lead(s, CharSet::White, true);
    let t = s.skip(skip as int);
    if skip >= s.len() {
        Seq::empty()
    } else {
        let n = text::lead(t, CharSet::White, false);
        seq![t.take(n as int)] + words(t.skip(n as int))
    }
}

#[via_fn]
proof fn words_end(s: Seq<char>) {
    text::lead_bound(s, CharSet::White, true);
    let t = s.skip(text::lead(s, CharSet::White, true) as int);
    text::lead_bound(t, CharSet::White, false);
}

/// The pieces of `s` between white space.
pub fn words_of(s: &str) -> (r: Vec<String>)
    ensures
        text::views(r@) == words(s@),
{
    let v = to_chars(s);
    let mut out: Vec<String> = Vec::new();
    let mut i: usize = 0;
    proof {
        text::views_empty();
        assert(v@.skip(0) =~= v@);
        assert(text::views(out@) + words(v@.skip(0)) =~= words(s@));
    }
    loop
        invariant
            i <= v.len(),
            v@ == s@,
            text::views(out@) + words(v@.skip(i as int)) == words(s@),
        decreases v.len() - i,
    {
        let ghost rest = v@.skip(i as int);
        let ghost before = text::views(out@);
        let skip: usize = lead_chars(&v, i, CharSet::White, true);
        if i + skip == v.len() {
            assert(text::views(out@) + words(rest) =~= text::views(out@));
            return out;
        }
        let start: usize = i + skip;
        let ghost t = rest.skip(skip as int);
        assert(t =~= v@.skip(start as int));
        let n: usize = lead_chars(&v, start, CharSet::White, false);
        let end: usize = start + n;
        proof {
            text::lead_bound(rest, CharSet::White, true);
            text::lead_bound(t, CharSet::White, false);
            assert(t[0] == rest[skip as int]);
        }
        out.push(from_chars(&v, start, end));
        proof {
            assert(v@.subrange(start as int, end as int) =~= t.take(n as int));
            assert(t.skip(n as int) =~= v@.skip(end as int));
            assert(text::views(out@) + words(v@.skip(end as int)) =~= before + words(rest));
        }
        i = end;
    }
}

/// The pieces of `s` between the places where `p` stands, taken from the
/// left.
pub open spec fn split_text(s: Seq<char>, p: Seq<char>) -> Seq<Seq<char>>
    decreases s.len(),
    via split_text_end
{
    match text::find(s, p) {
        Some(i) => if p.len() > 0 {
            seq![s.take(i)] + split_text(s.skip(i + p.len()), p)
        } else {
            seq![s]
        },
        None => seq![s],
    }
}

#[via_fn]
proof fn split_text_end(s: Seq<char>, p: Seq<char>) {
    text::find_is_first(s, p);
}

pub proof fn find_from_skip(s: Seq<char>, p: Seq<char>, from: int, i: int)
    requires
        0 <= from <= i,
        from <= s.len(),
    ensures
        text::find_from(s, p, i) == (match text::find_from(s.skip(from), p, i - from) {
            Some(j) => Some(j + from),
            None => None,
        }),
    decreases s.len() - i + 1,
{
    let t = s.skip(from);
    if i + p.len() > s.len() {
    } else {
        assert(t.subrange(i - from, i - from + p.len()) =~= s.subrange(i, i + p.len()));
        if !text::occurs_at(s, p, i) {
            find_from_skip(s, p, from, i + 1);
        }
    }
}

/// The pieces of `s` between the places where `p` stands.
pub fn split_at_text(s: &str, p: &str) -> (r: Vec<String>)
    requires
        p@.len() > 0,
    ensures
        text::views(r@) == split_text(s@, p@),
        r.len() > 0,
{
    let v = to_chars(s);
    let q = to_chars(p);
    let mut out: Vec<String> = Vec::new();
    let mut i: usize = 0;
    proof {
        text::views_empty();
        assert(v@.skip(0) =~= v@);
        assert(text::views(out@) + split_text(v@.skip(0), p@) =~= split_text(s@, p@));
    }
    loop
        invariant
            i <= v.len(),
            v@ == s@,
            q@ == p@,
            p@.len() > 0,
            text::views(out@) + split_text(v@.skip(i as int), p@) == split_text(s@, p@),
        decreases v.len() - i,
    {
        let ghost rest = v@.skip(i as int);
        let ghost before = text::views(out@);
        let at = find_chars(&v, &q, i);
        proof {
            find_from_skip(v@, p@, i as int, i as int);
            text::find_is_first(rest, p@);
            text::find_from_is_first(v@, p@, i as int);
        }
        match at {
            None => {
                assert(v@.subrange(i as int, v@.len() as int) =~= rest);
                out.push(from_chars(&v, i, v.len()));
                assert(text::views(out@) =~= before + seq![rest]);
                return out;
            },
            Some(j) => {
                out.push(from_chars(&v, i, j));
                proof {
                    assert(v@.subrange(i as int, j as int) =~= rest.take(j - i));
                    assert(rest.skip(j - i + p@.len()) =~= v@.skip(j + p@.len()));
                    assert(text::views(out@) + split_text(v@.skip(j + p@.len()), p@) =~= before + split_text(
                        rest,
                        p@,
                    ));
                }
                i = j + q.len();
            },
        }
    }
}

/// What stands before the first `p`: all of `s` where there is none.
pub open spec fn before_text(s: Seq<char>, p: Seq<char>) -> Seq<char> {
    match text::find(s, p) {
        Some(i) => s.take(i),
        None => s,
    }
}

pub fn before_first(s: &str, p: &str) -> (r: String)
    ensures
        r@ == before_text(s@, p@),
{
    proof {
        text::find_is_first(s@, p@);
    }
    match find_str(s, p) {
        Some(i) => {
            assert(s@.subrange(0, i as int) =~= s@.take(i as int));
            cut(s, 0, i)
        },
        None => s.to_owned(),
    }
}

/// What stands before and behind the first `p`.
pub open spec fn split_once(s: Seq<char>, p: Seq<char>) -> Option<(Seq<char>, Seq<char>)> {
    match text::find(s, p) {
        Some(i) => Some((s.take(i), s.skip(i + p.len()))),
        None => None,
    }
}

/// A text splits at a sign that the part in front of it does not hold.
pub proof fn split_at_sign(a: Seq<char>, p: Seq<char>, b: Seq<char>)
    requires
        p.len() == 1,
        !text::contains(a, p),
    ensures
        split_once(a + p + b, p) == Some((a, b)),
{
    let q = a + p + b;
    let n = a.len() as int;
    assert(q.subrange(n, n + 1) =~= p);
    assert(text::occurs_at(q, p, n));
    text::find_is_first(q, p);
    let i = text::find(q, p)->0;
    if i < n {
        assert(a.subrange(i, i + 1) =~= q.subrange(i, i + 1));
        assert(text::occurs_at(a, p, i));
    }
    assert(i == n);
    assert(q.take(n) =~= a);
    assert(q.skip(n + 1) =~= b);
}

pub fn split_first(s: &str, p: &str) -> (r: Option<(String, String)>)
    ensures
        match r {
            Some((a, b)) => split_once(s@, p@) == Some((a@, b@)),
            None => split_once(s@, p@) is None,
        },
{
    proof {
        text::find_is_first(s@, p@);
    }
    match find_str(s, p) {
        Some(i) => {
            assert(s@.subrange(0, i as int) =~= s@.take(i as int));
            Some((cut(s, 0, i), without_first(s, i + count(p))))
        },
        None => None,
    }
}

/// `s` without the copies of `p` at its front.
pub open spec fn trim_start_text(s: Seq<char>, p: Seq<char>) -> Seq<char>
    decreases s.len(),
{
    if p.len() > 0 && text::begins(s, p) {
        trim_start_text(s.skip(p.len() as int), p)
    } else {
        s
    }
}

/// `s` without the copies of `p` at its front.
pub fn trim_front_text(s: &str, p: &str) -> (r: String)
    requires
        p@.len() > 0,
    ensures
        r@ == trim_start_text(s@, p@),
    decreases s@.len(),
{
    if begins_with(s, p) {
        let t = without_first(s, count(p));
        trim_front_text(t.as_str(), p)
    } else {
        s.to_owned()
    }
}

/// `s` without the copies of `p` at its back.
pub open spec fn trim_end_text(s: Seq<char>, p: Seq<char>) -> Seq<char>
    decreases s.len(),
{
    if p.len() > 0 && text::ends(s, p) {
        trim_end_text(s.take(s.len() - p.len()), p)
    } else {
        s
    }
}

/// `s` without the copies of `p` at its back.
pub fn trim_back_text(s: &str, p: &str) -> (r: String)
    requires
        p@.len() > 0,
    ensures
        r@ == trim_end_text(s@, p@),
    decreases s@.len(),
{
    if finishes_with(s, p) {
        let t = cut(s, 0, count(s) - count(p));
        assert(t@ =~= s@.take(s@.len() - p@.len()));
        trim_back_text(t.as_str(), p)
    } else {
        s.to_owned()
    }
}

/// The pieces one after the other with `sep` between them.
pub open spec fn join(parts: Seq<Seq<char>>, sep: Seq<char>) -> Seq<char>
    decreases parts.len(),
{
    if parts.len() == 0 {
        Seq::empty()
    } else if parts.len() == 1 {
        parts[0]
    } else {
        join(parts.drop_last(), sep) + sep + parts.last()
    }
}

/// Joining what was split gives the text back, and no piece holds what it was
/// split at.
pub proof fn split_joins(s: Seq<char>, p: Seq<char>)
    requires
        p.len() > 0,
    ensures
        split_text(s, p).len() > 0,
        join(split_text(s, p), p) == s,
        forall|i: int|
            0 <= i < split_text(s, p).len() ==> !text::contains(#[trigger] split_text(s, p)[i], p),
    decreases s.len(),
{
    text::find_is_first(s, p);
    let all = split_text(s, p);
    match text::find(s, p) {
        Some(i) => {
            let rest = s.skip(i + p.len());
            let more = split_text(rest, p);
            split_joins(rest, p);
            assert(all == seq![s.take(i)] + more);
            join_in_front(all, p);
            assert(all.skip(1) =~= more);
            assert(s.subrange(i, i + p.len()) == p);
            assert(s.take(i) + p + rest =~= s);
            assert forall|k: int| 0 <= k < all.len() implies !text::contains(#[trigger] all[k], p) by {
                if k > 0 {
                    assert(all[k] == more[k - 1]);
                } else if text::contains(all[0], p) {
                    let j = choose|j: int| text::occurs_at(all[0], p, j);
                    assert(s.subrange(j, j + p.len()) =~= s.take(i).subrange(j, j + p.len()));
                    assert(text::occurs_at(s, p, j));
                }
            }
        },
        None => {
            assert(all =~= seq![s]);
        },
    }
}

/// Where a text does not hold what is to be replaced it stays; where it does,
/// what stands in front of the first place stays, and the rest is replaced
/// alike.
pub proof fn replacing_goes_from_the_left(s: Seq<char>, from: Seq<char>, to: Seq<char>)
    requires
        from.len() > 0,
    ensures
        !text::contains(s, from) ==> replace(s, from, to) == s,
        text::find(s, from) matches Some(i) ==> replace(s, from, to) == s.take(i) + to + replace(
            s.skip(i + from.len()),
            from,
            to,
        ),
{
    text::find_is_first(s, from);
    if let Some(i) = text::find(s, from) {
        let rest = s.skip(i + from.len());
        split_joins(rest, from);
        let all = split_text(s, from);
        assert(all == seq![s.take(i)] + split_text(rest, from));
        join_in_front(all, to);
        assert(all.skip(1) =~= split_text(rest, from));
    }
}

/// Words are what stands between white space: none of them is empty or holds
/// any, and together they hold every other character, in its order.
pub proof fn words_hold_the_rest(s: Seq<char>)
    ensures
        forall|i: int, j: int|
            0 <= i < words(s).len() && 0 <= j < words(s)[i].len() ==> !text::is_white(
                #[trigger] words(s)[i][j],
            ),
        forall|i: int| 0 <= i < words(s).len() ==> (#[trigger] words(s)[i]).len() > 0,
        words(s).flatten() == s.filter(|c: char| !text::is_white(c)),
    decreases s.len(),
{
    let dark = |c: char| !text::is_white(c);
    let k = text::lead(s, CharSet::White, true) as int;
    text::lead_bound(s, CharSet::White, true);
    let t = s.skip(k);
    let n = text::lead(t, CharSet::White, false) as int;
    text::lead_bound(t, CharSet::White, false);
    if k >= s.len() {
        assert(words(s) =~= Seq::empty());
        all_white(s);
        assert(words(s).flatten() =~= Seq::empty());
    } else {
        let w = t.take(n);
        let rest = t.skip(n);
        assert(t[0] == s[k]);
        words_hold_the_rest(rest);
        let ws = words(s);
        assert(ws == seq![w] + words(rest));
        assert forall|i: int, j: int| 0 <= i < ws.len() && 0 <= j < ws[i].len() implies !text::is_white(
            #[trigger] ws[i][j],
        ) by {
            if i > 0 {
                assert(ws[i] == words(rest)[i - 1]);
            } else {
                assert(w[j] == t[j]);
            }
        }
        assert(ws.drop_first() =~= words(rest));
        assert(ws.first() == w);
        assert(ws.flatten() == w + words(rest).flatten());
        assert(s =~= s.take(k) + (w + rest));
        Seq::filter_distributes_over_add(s.take(k), w + rest, dark);
        Seq::filter_distributes_over_add(w, rest, dark);
        assert forall|i: int| 0 <= i < k implies text::is_white(#[trigger] s.take(k)[i]) by {
            assert(s.take(k)[i] == s[i]);
        }
        all_white(s.take(k));
        assert forall|i: int| 0 <= i < n implies !text::is_white(#[trigger] w[i]) by {
            assert(w[i] == t[i]);
        }
        none_white(w);
        assert(ws.flatten() =~= s.filter(dark));
    }
}

proof fn all_white(s: Seq<char>)
    requires
        forall|i: int| 0 <= i < s.len() ==> text::is_white(#[trigger] s[i]),
    ensures
        s.filter(|c: char| !text::is_white(c)) == Seq::<char>::empty(),
    decreases s.len(),
{
    reveal(Seq::filter);
    if s.len() > 0 {
        assert forall|i: int| 0 <= i < s.drop_last().len() implies text::is_white(
            #[trigger] s.drop_last()[i],
        ) by {
            assert(s.drop_last()[i] == s[i]);
        }
        all_white(s.drop_last());
        assert(text::is_white(s[s.len() - 1]));
    }
}

proof fn none_white(s: Seq<char>)
    requires
        forall|i: int| 0 <= i < s.len() ==> !text::is_white(#[trigger] s[i]),
    ensures
        s.filter(|c: char| !text::is_white(c)) == s,
    decreases s.len(),
{
    reveal(Seq::filter);
    if s.len() > 0 {
        assert forall|i: int| 0 <= i < s.drop_last().len() implies !text::is_white(
            #[trigger] s.drop_last()[i],
        ) by {
            assert(s.drop_last()[i] == s[i]);
        }
        none_white(s.drop_last());
        assert(!text::is_white(s[s.len() - 1]));
        assert(s.drop_last().push(s.last()) =~= s);
    }
}

/// A word in front, set off by white space, is the first word, and white
/// space in front does not matter.
pub proof fn word_in_front(space: Seq<char>, w: Seq<char>, tail: Seq<char>)
    requires
        forall|i: int| 0 <= i < space.len() ==> text::is_white(#[trigger] space[i]),
        w.len() > 0,
        forall|i: int| 0 <= i < w.len() ==> !text::is_white(#[trigger] w[i]),
        tail.len() == 0 || text::is_white(tail[0]),
    ensures
        words(space + w + tail) == seq![w] + words(tail),
{
    let s = space + w + tail;
    let t = w + tail;
    let k = text::lead(s, CharSet::White, true) as int;
    text::lead_bound(s, CharSet::White, true);
    if k < space.len() {
        assert(s[k] == space[k]);
    } else if k > space.len() {
        assert(s[space.len() as int] == w[0]);
    }
    assert(s.skip(k) =~= t);
    let n = text::lead(t, CharSet::White, false) as int;
    text::lead_bound(t, CharSet::White, false);
    if n < w.len() {
        assert(t[n] == w[n]);
    } else if n > w.len() {
        assert(t[w.len() as int] == tail[0]);
    }
    assert(t.take(n) =~= w);
    assert(t.skip(n) =~= tail);
}

/// A text split at a set of characters is its pieces with one character of
/// the set behind each but the last; no piece holds one.
pub proof fn set_parts_pieces(s: Seq<char>, cs: CharSet<'_>)
    ensures
        split_set(s, cs).len() > 0,
        forall|i: int, j: int|
            0 <= i < split_set(s, cs).len() && 0 <= j < split_set(s, cs)[i].len() ==> !text::in_set(
                cs,
                #[trigger] split_set(s, cs)[i][j],
            ),
        split_set(s, cs).flatten() == s.filter(|c: char| !text::in_set(cs, c)),
        split_set(s, cs).len() == s.filter(|c: char| text::in_set(cs, c)).len() + 1,
    decreases s.len(),
{
    let out = |c: char| !text::in_set(cs, c);
    let within = |c: char| text::in_set(cs, c);
    let n = text::lead(s, cs, false) as int;
    text::lead_bound(s, cs, false);
    let w = s.take(n);
    assert forall|i: int| 0 <= i < n implies !text::in_set(cs, #[trigger] w[i]) by {
        assert(w[i] == s[i]);
    }
    none_within(w, cs);
    let ws = split_set(s, cs);
    if n >= s.len() {
        assert(w =~= s);
        assert(ws =~= seq![s]);
        assert(ws.drop_first() =~= Seq::empty());
        assert(ws.drop_first().flatten() =~= Seq::<char>::empty());
        assert(ws.flatten() =~= s);
    } else {
        let rest = s.skip(n + 1);
        set_parts_pieces(rest, cs);
        assert(ws == seq![w] + split_set(rest, cs));
        assert forall|i: int, j: int| 0 <= i < ws.len() && 0 <= j < ws[i].len() implies !text::in_set(
            cs,
            #[trigger] ws[i][j],
        ) by {
            if i > 0 {
                assert(ws[i] == split_set(rest, cs)[i - 1]);
            } else {
                assert(ws[0] == w);
            }
        }
        assert(ws.drop_first() =~= split_set(rest, cs));
        assert(ws.flatten() == w + split_set(rest, cs).flatten());
        let one = seq![s[n]];
        assert(s =~= w + (one + rest));
        Seq::filter_distributes_over_add(w, one + rest, out);
        Seq::filter_distributes_over_add(one, rest, out);
        Seq::filter_distributes_over_add(w, one + rest, within);
        Seq::filter_distributes_over_add(one, rest, within);
        reveal_with_fuel(Seq::filter, 3);
        assert(one.drop_last() =~= Seq::empty());
        assert(one.filter(out) =~= Seq::empty());
        assert(one.filter(within) =~= one);
        assert(ws.flatten() =~= s.filter(out));
    }
}

proof fn none_within(s: Seq<char>, cs: CharSet<'_>)
    requires
        forall|i: int| 0 <= i < s.len() ==> !text::in_set(cs, #[trigger] s[i]),
    ensures
        s.filter(|c: char| !text::in_set(cs, c)) == s,
        s.filter(|c: char| text::in_set(cs, c)) == Seq::<char>::empty(),
    decreases s.len(),
{
    reveal(Seq::filter);
    if s.len() > 0 {
        assert forall|i: int| 0 <= i < s.drop_last().len() implies !text::in_set(
            cs,
            #[trigger] s.drop_last()[i],
        ) by {
            assert(s.drop_last()[i] == s[i]);
        }
        none_within(s.drop_last(), cs);
        assert(!text::in_set(cs, s[s.len() - 1]));
        assert(s.drop_last().push(s.last()) =~= s);
    }
}

/// The first piece comes before the others.
pub proof fn join_in_front(parts: Seq<Seq<char>>, sep: Seq<char>)
    requires
        parts.len() > 1,
    ensures
        join(parts, sep) == parts[0] + sep + join(parts.skip(1), sep),
    decreases parts.len(),
{
    reveal_with_fuel(join, 3);
    let rest = parts.skip(1);
    if parts.len() > 2 {
        join_in_front(parts.drop_last(), sep);
        assert(parts.drop_last().skip(1) =~= rest.drop_last());
    }
    assert(join(parts, sep) =~= parts[0] + sep + join(rest, sep));
}

/// The pieces one after the other with `sep` between them.
pub fn join_with(parts: &Vec<String>, sep: &str) -> (r: String)
    ensures
        r@ == join(text::views(parts@), sep@),
{
    let mut out = String::new();
    let mut i: usize = 0;
    let ghost all = text::views(parts@);
    while i < parts.len()
        invariant
            i <= parts.len(),
            all == text::views(parts@),
            out@ == join(all.take(i as int), sep@),
        decreases parts.len() - i,
    {
        if i > 0 {
            out.append(sep);
        }
        out.append(parts[i].as_str());
        proof {
            assert(all.take(i + 1).drop_last() =~= all.take(i as int));
            assert(all.take(i + 1).last() == parts@[i as int]@);
            if i == 0 {
                assert(out@ =~= all.take(1)[0]);
            }
        }
        i += 1;
    }
    assert(all.take(parts@.len() as int) =~= all);
    out
}

/// `s` with `to` in place of each `from`, taken from the left.
pub open spec fn replace(s: Seq<char>, from: Seq<char>, to: Seq<char>) -> Seq<char> {
    join(split_text(s, from), to)
}

pub fn replaced(s: &str, from: &str, to: &str) -> (r: String)
    requires
        from@.len() > 0,
    ensures
        r@ == replace(s@, from@, to@),
{
    let parts = split_at_text(s, from);
    join_with(&parts, to)
}

} // verus!
