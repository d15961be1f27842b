//! Strings as sequences of characters: the operations the rest of the crate
//! is written with, each proved against a short definition.

use vstd::prelude::*;

verus! {

/// `String::push` adds one character at the end.
pub assume_specification[ String::push ](s: &mut String, c: char)
    ensures
        final(s)@ == old(s)@.push(c),
;

/// The contents of a list of strings.
pub open spec fn views(v: Seq<String>) -> Seq<Seq<char>> {
    Seq::new(v.len(), |i: int| v[i]@)
}

pub broadcast proof fn views_push(v: Seq<String>, s: String)
    ensures
        #[trigger] views(v.push(s)) == views(v).push(s@),
{
    assert(views(v.push(s)) =~= views(v).push(s@));
}

pub proof fn views_empty()
    ensures
        views(Seq::<String>::empty()) == Seq::<Seq<char>>::empty(),
{
    assert(views(Seq::<String>::empty()) =~= Seq::<Seq<char>>::empty());
}

/// The characters of `s`.
pub fn to_chars(s: &str) -> (v: Vec<char>)
    ensures
        v@ == s@,
{
    let mut v: Vec<char> = Vec::new();
    for c in it: s.chars()
        invariant
            v@ == it.seq().take(it.index()),
            it.seq() == s@,
    {
        v.push(c);
    }
    assert(s@.take(s@.len() as int) =~= s@);
    v
}

/// The string made of the characters `v[from..to]`.
pub fn from_chars(v: &Vec<char>, from: usize, to: usize) -> (s: String)
    requires
        from <= to <= v.len(),
    ensures
        s@ == v@.subrange(from as int, to as int),
{
    let mut s = String::new();
    let mut i: usize = from;
    while i < to
        invariant
            from <= i <= to <= v.len(),
            s@ == v@.subrange(from as int, i as int),
        decreases to - i,
    {
        s.push(v[i]);
        i += 1;
        assert(v@.subrange(from as int, i as int) =~= v@.subrange(from as int, i - 1).push(v@[i - 1]));
    }
    s
}

/// Whether two strings hold the same characters.
pub fn same(a: &str, b: &str) -> (r: bool)
    ensures
        r == (a@ == b@),
{
    let x = a.as_bytes();
    let y = b.as_bytes();
    proof {
        vstd::utf8::encode_utf8_decode_utf8(a@);
        vstd::utf8::encode_utf8_decode_utf8(b@);
    }
    if x.len() != y.len() {
        return false;
    }
    let mut i: usize = 0;
    while i < x.len()
        invariant
            i <= x.len(),
            x.len() == y.len(),
            x@ == vstd::utf8::encode_utf8(a@),
            y@ == vstd::utf8::encode_utf8(b@),
            forall|k: int| 0 <= k < i ==> x@[k] == y@[k],
        decreases x.len() - i,
    {
        if x[i] != y[i] {
            return false;
        }
        i += 1;
    }
    assert(x@ =~= y@);
    true
}

/// Whether `p` stands in `s` at position `i`.
pub open spec fn occurs_at(s: Seq<char>, p: Seq<char>, i: int) -> bool {
    0 <= i && i + p.len() <= s.len() && s.subrange(i, i + p.len()) == p
}

/// The first position from `i` on at which `p` stands in `s`.
pub open spec fn find_from(s: Seq<char>, p: Seq<char>, i: int) -> Option<int>
    decreases s.len() - i + 1,
{
    if i < 0 || i + p.len() > s.len() {
        None
    } else if occurs_at(s, p, i) {
        Some(i)
    } else {
        find_from(s, p, i + 1)
    }
}

/// The first position of `p` in `s`.
pub open spec fn find(s: Seq<char>, p: Seq<char>) -> Option<int> {
    find_from(s, p, 0)
}

/// Whether `p` stands somewhere in `s`.
pub open spec fn contains(s: Seq<char>, p: Seq<char>) -> bool {
    exists|i: int| occurs_at(s, p, i)
}

pub proof fn find_from_is_first(s: Seq<char>, p: Seq<char>, i: int)
    requires
        0 <= i,
    ensures
        match find_from(s, p, i) {
            Some(j) => i <= j && occurs_at(s, p, j) && forall|k: int|
                i <= k < j ==> !occurs_at(s, p, k),
            None => forall|k: int| i <= k ==> !occurs_at(s, p, k),
        },
    decreases s.len() - i + 1,
{
    if i + p.len() > s.len() {
    } else if occurs_at(s, p, i) {
    } else {
        find_from_is_first(s, p, i + 1);
    }
}

/// `find` gives the first position at which `p` stands, and `None` exactly
/// where `s` does not contain `p`.
pub proof fn find_is_first(s: Seq<char>, p: Seq<char>)
    ensures
        match find(s, p) {
            Some(j) => occurs_at(s, p, j) && forall|k: int| k < j ==> !occurs_at(s, p, k),
            None => !contains(s, p),
        },
        contains(s, p) == (find(s, p) is Some),
{
    find_from_is_first(s, p, 0);
}

/// What `a` cannot begin is found behind `a`.
pub proof fn found_behind(a: Seq<char>, p: Seq<char>, b: Seq<char>)
    requires
        p.len() > 0,
        !a.contains(p[0]),
    ensures
        find(a + p + b, p) == Some(a.len() as int),
        contains(a + p + b, p),
        (a + p + b).take(a.len() as int) == a,
        (a + p + b).skip(a.len() as int + p.len()) == b,
{
    let s = a + p + b;
    let n = a.len() as int;
    assert(occurs_at(s, p, n)) by {
        assert(s.subrange(n, n + p.len()) =~= p);
    }
    find_is_first(s, p);
    let found = find(s, p);
    assert(found is Some);
    let i = found->0;
    assert(occurs_at(s, p, i));
    assert(i >= n) by {
        if i < n {
            let u = s.subrange(i, i + p.len());
            assert(u == p);
            assert(u[0] == s[i]);
            assert(s[i] == a[i]);
            assert(a.contains(a[i]));
        }
    }
    assert(i <= n);
    assert(s.take(n) =~= a);
    assert(s.skip(n + p.len()) =~= b);
}

/// Nothing holds what none of its characters begins.
pub proof fn found_nowhere(a: Seq<char>, p: Seq<char>)
    requires
        p.len() > 0,
        !a.contains(p[0]),
    ensures
        !contains(a, p),
        find(a, p) is None,
{
    find_is_first(a, p);
    if contains(a, p) {
        let i = choose|i: int| occurs_at(a, p, i);
        let u = a.subrange(i, i + p.len());
        assert(u == p);
        assert(u[0] == a[i]);
        assert(a.contains(a[i]));
    }
}

pub open spec fn opt_int(o: Option<usize>) -> Option<int> {
    match o {
        Some(i) => Some(i as int),
        None => None,
    }
}

pub fn chars_at(s: &Vec<char>, p: &Vec<char>, i: usize) -> (r: bool)
    requires
        i <= s.len(),
    ensures
        r == occurs_at(s@, p@, i as int),
{
    if s.len() - i < p.len() {
        return false;
    }
    let mut k: usize = 0;
    while k < p.len()
        invariant
            k <= p.len(),
            i + p.len() <= s.len(),
            s@.subrange(i as int, i + k) == p@.subrange(0, k as int),
        decreases p.len() - k,
    {
        if s[i + k] != p[k] {
            assert(s@.subrange(i as int, i + p.len())[k as int] != p@[k as int]);
            return false;
        }
        k += 1;
        assert(s@.subrange(i as int, i + k) =~= s@.subrange(i as int, i + k - 1).push(s@[i + k - 1]));
        assert(p@.subrange(0, k as int) =~= p@.subrange(0, k - 1).push(p@[k - 1]));
    }
    assert(p@.subrange(0, p@.len() as int) =~= p@);
    true
}

/// The first position from `from` on at which `p` stands in `s`.
pub fn find_chars(s: &Vec<char>, p: &Vec<char>, from: usize) -> (r: Option<usize>)
    requires
        from <= s.len(),
    ensures
        opt_int(r) == find_from(s@, p@, from as int),
{
    let mut i: usize = from;
    while s.len() - i >= p.len()
        invariant
            from <= i <= s.len(),
            find_from(s@, p@, from as int) == find_from(s@, p@, i as int),
        decreases s.len() - i,
    {
        if chars_at(s, p, i) {
            return Some(i);
        }
        assert(i < s.len()) by {
            if i == s.len() {
                assert(s@.subrange(i as int, i as int) =~= p@);
            }
        }
        i += 1;
    }
    None
}

/// The position, counted in characters, at which `p` first stands in `s`.
pub fn find_str(s: &str, p: &str) -> (r: Option<usize>)
    ensures
        opt_int(r) == find(s@, p@),
        r is Some ==> r->0 + p@.len() <= s@.len() <= usize::MAX,
{
    proof {
        find_is_first(s@, p@);
    }
    let sv = to_chars(s);
    let pv = to_chars(p);
    let r = find_chars(&sv, &pv, 0);
    let n: usize = sv.len();
    assert(n == s@.len());
    assert(r is Some ==> occurs_at(s@, p@, r->0 as int));
    r
}

/// Whether `p` stands somewhere in `s`.
pub fn holds(s: &str, p: &str) -> (r: bool)
    ensures
        r == contains(s@, p@),
{
    proof {
        find_is_first(s@, p@);
    }
    find_str(s, p).is_some()
}

/// Whether `s` begins with `p`.
pub open spec fn begins(s: Seq<char>, p: Seq<char>) -> bool {
    occurs_at(s, p, 0)
}

/// Whether `s` ends with `p`.
pub open spec fn ends(s: Seq<char>, p: Seq<char>) -> bool {
    occurs_at(s, p, s.len() - p.len())
}

pub fn begins_with(s: &str, p: &str) -> (r: bool)
    ensures
        r == begins(s@, p@),
{
    let sv = to_chars(s);
    let pv = to_chars(p);
    chars_at(&sv, &pv, 0)
}

pub fn finishes_with(s: &str, p: &str) -> (r: bool)
    ensures
        r == ends(s@, p@),
{
    let sv = to_chars(s);
    let pv = to_chars(p);
    if sv.len() < pv.len() {
        false
    } else {
        chars_at(&sv, &pv, sv.len() - pv.len())
    }
}


/// What is left of `s` behind the prefix `p`.
pub open spec fn behind(s: Seq<char>, p: Seq<char>) -> Option<Seq<char>> {
    if begins(s, p) {
        Some(s.skip(p.len() as int))
    } else {
        None
    }
}

pub open spec fn opt_text(o: Option<String>) -> Option<Seq<char>> {
    match o {
        Some(s) => Some(s@),
        None => None,
    }
}

/// The part of `s` from character `from` to character `to`.
pub fn cut(s: &str, from: usize, to: usize) -> (r: String)
    requires
        from <= to <= s@.len(),
    ensures
        r@ == s@.subrange(from as int, to as int),
{
    s.substring_char(from, to).to_owned()
}

/// The number of characters of `s`.
pub fn count(s: &str) -> (n: usize)
    ensures
        n == s@.len(),
{
    s.unicode_len()
}

/// `s` without its first `n` characters.
pub fn without_first(s: &str, n: usize) -> (r: String)
    requires
        n <= s@.len(),
    ensures
        r@ == s@.skip(n as int),
{
    cut(s, n, count(s))
}

/// The first `n` characters of `s`, or all of it.
pub open spec fn first_chars(s: Seq<char>, n: int) -> Seq<char> {
    if s.len() <= n {
        s
    } else {
        s.take(n)
    }
}

pub fn take_chars(s: &str, n: usize) -> (r: String)
    ensures
        r@ == first_chars(s@, n as int),
{
    if count(s) <= n {
        s.to_owned()
    } else {
        cut(s, 0, n)
    }
}

/// What stands behind the prefix `p` of `s`.
pub fn strip_prefix(s: &str, p: &str) -> (r: Option<String>)
    ensures
        opt_text(r) == behind(s@, p@),
{
    if begins_with(s, p) {
        Some(without_first(s, count(p)))
    } else {
        None
    }
}

/// A set of characters to search, split or trim by.
#[derive(Clone, Copy)]
pub enum CharSet<'a> {
    /// White space.
    White,
    /// The characters of a string.
    OneOf(&'a str),
    /// Everything that cannot stand in an identifier.
    NotWord,
    /// `0` to `9`.
    Digit,
    /// White space, and the characters of a string.
    WhiteOr(&'a str),
}

/// Unicode's white space.
pub open spec fn is_white(c: char) -> bool {
    let n = c as u32;
    ||| 9 <= n <= 13
    ||| n == 0x20 || n == 0x85 || n == 0xa0 || n == 0x1680
    ||| 0x2000 <= n <= 0x200a
    ||| n == 0x2028 || n == 0x2029 || n == 0x202f || n == 0x205f || n == 0x3000
}

pub fn char_is_white(c: char) -> (r: bool)
    ensures
        r == is_white(c),
{
    let n: u32 = c as u32;
    (9 <= n && n <= 13) || n == 0x20 || n == 0x85 || n == 0xa0 || n == 0x1680 || (0x2000 <= n && n
        <= 0x200a) || n == 0x2028 || n == 0x2029 || n == 0x202f || n == 0x205f || n == 0x3000
}

pub open spec fn ascii_upper(c: char) -> bool {
    'A' <= c && c <= 'Z'
}

pub open spec fn ascii_lower(c: char) -> bool {
    'a' <= c && c <= 'z'
}

pub open spec fn ascii_digit(c: char) -> bool {
    '0' <= c && c <= '9'
}

/// What `char::is_alphanumeric` answers.
pub uninterp spec fn alphanumeric(c: char) -> bool;

/// What `char::is_alphabetic` answers.
pub uninterp spec fn alphabetic(c: char) -> bool;

/// What `char::is_uppercase` answers.
pub uninterp spec fn uppercase(c: char) -> bool;

/// What `str::to_lowercase` returns.
pub uninterp spec fn lowercase(s: Seq<char>) -> Seq<char>;

/// `char::is_alphanumeric` goes by Unicode's tables; on ASCII it holds of
/// the letters and the digits.
pub assume_specification[ char::is_alphanumeric ](c: char) -> (r: bool)
    ensures
        r == alphanumeric(c),
        (c as u32) < 128 ==> r == (ascii_upper(c) || ascii_lower(c) || ascii_digit(c)),
;

/// `char::is_alphabetic` goes by Unicode's tables; on ASCII it holds of the
/// letters.
pub assume_specification[ char::is_alphabetic ](c: char) -> (r: bool)
    ensures
        r == alphabetic(c),
        (c as u32) < 128 ==> r == (ascii_upper(c) || ascii_lower(c)),
;

/// `char::is_uppercase` goes by Unicode's tables; on ASCII it holds of `A`
/// to `Z`.
pub assume_specification[ char::is_uppercase ](c: char) -> (r: bool)
    ensures
        r == uppercase(c),
        (c as u32) < 128 ==> r == ascii_upper(c),
;

pub open spec fn ascii_lowered(c: char) -> char {
    if ascii_upper(c) {
        ((c as u32) + 32) as char
    } else {
        c
    }
}

pub open spec fn ascii_text(s: Seq<char>) -> bool {
    forall|i: int| 0 <= i < s.len() ==> (#[trigger] s[i] as u32) < 128
}

/// `str::to_lowercase` maps by Unicode's tables; a string of ASCII
/// characters keeps its length, and only `A` to `Z` change.
pub assume_specification[ str::to_lowercase ](s: &str) -> (r: String)
    ensures
        r@ == lowercase(s@),
        ascii_text(s@) ==> r@ == Seq::new(s@.len(), |i: int| ascii_lowered(s@[i])),
;

/// Whether `c` belongs to the set.
pub open spec fn in_set(cs: CharSet<'_>, c: char) -> bool {
    match cs {
        CharSet::White => is_white(c),
        CharSet::OneOf(t) => t@.contains(c),
        CharSet::NotWord => !alphanumeric(c) && c != '_',
        CharSet::Digit => ascii_digit(c),
        CharSet::WhiteOr(t) => is_white(c) || t@.contains(c),
    }
}

fn str_has_char(t: &str, c: char) -> (r: bool)
    ensures
        r == t@.contains(c),
{
    let v = to_chars(t);
    let mut i: usize = 0;
    while i < v.len()
        invariant
            i <= v.len(),
            v@ == t@,
            forall|k: int| 0 <= k < i ==> v@[k] != c,
        decreases v.len() - i,
    {
        if v[i] == c {
            return true;
        }
        i += 1;
    }
    false
}

pub fn set_has(cs: CharSet<'_>, c: char) -> (r: bool)
    ensures
        r == in_set(cs, c),
{
    match cs {
        CharSet::White => char_is_white(c),
        CharSet::OneOf(t) => str_has_char(t, c),
        CharSet::NotWord => !c.is_alphanumeric() && c != '_',
        CharSet::Digit => '0' <= c && c <= '9',
        CharSet::WhiteOr(t) => char_is_white(c) || str_has_char(t, c),
    }
}

/// How many characters at the front of `s` are in the set (or, with `want`
/// false, out of it).
pub open spec fn lead(s: Seq<char>, cs: CharSet<'_>, want: bool) -> nat
    decreases s.len(),
{
    if s.len() > 0 && in_set(cs, s[0]) == want {
        1 + lead(s.skip(1), cs, want)
    } else {
        0
    }
}

/// How many characters at the back of `s` are in the set.
pub open spec fn trail(s: Seq<char>, cs: CharSet<'_>) -> nat
    decreases s.len(),
{
    if s.len() > 0 && in_set(cs, s.last()) {
        1 + trail(s.drop_last(), cs)
    } else {
        0
    }
}

pub proof fn lead_bound(s: Seq<char>, cs: CharSet<'_>, want: bool)
    ensures
        lead(s, cs, want) <= s.len(),
        forall|i: int| 0 <= i < lead(s, cs, want) ==> in_set(cs, #[trigger] s[i]) == want,
        lead(s, cs, want) < s.len() ==> in_set(cs, s[lead(s, cs, want) as int]) != want,
    decreases s.len(),
{
    if s.len() > 0 && in_set(cs, s[0]) == want {
        lead_bound(s.skip(1), cs, want);
        assert forall|i: int| 0 <= i < lead(s, cs, want) implies in_set(cs, #[trigger] s[i]) == want by {
            if i > 0 {
                assert(s.skip(1)[i - 1] == s[i]);
            }
        }
    }
}

pub proof fn trail_bound(s: Seq<char>, cs: CharSet<'_>)
    ensures
        trail(s, cs) <= s.len(),
        forall|i: int| s.len() - trail(s, cs) <= i < s.len() ==> in_set(cs, #[trigger] s[i]),
        trail(s, cs) < s.len() ==> !in_set(cs, s[s.len() - trail(s, cs) - 1]),
    decreases s.len(),
{
    if s.len() > 0 && in_set(cs, s.last()) {
        trail_bound(s.drop_last(), cs);
        assert forall|i: int| s.len() - trail(s, cs) <= i < s.len() implies in_set(cs, #[trigger] s[i]) by {
            if i < s.len() - 1 {
                assert(s.drop_last()[i] == s[i]);
            }
        }
    }
}

pub fn lead_chars(v: &Vec<char>, from: usize, cs: CharSet<'_>, want: bool) -> (n: usize)
    requires
        from <= v.len(),
    ensures
        n == lead(v@.skip(from as int), cs, want),
        from + n <= v.len(),
{
    let mut i: usize = from;
    while i < v.len()
        invariant
            from <= i <= v.len(),
            lead(v@.skip(from as int), cs, want) == (i - from) + lead(v@.skip(i as int), cs, want),
        decreases v.len() - i,
    {
        if set_has(cs, v[i]) != want {
            return i - from;
        }
        assert(v@.skip(i as int).skip(1) =~= v@.skip(i + 1));
        i += 1;
    }
    i - from
}

pub fn trail_chars(v: &Vec<char>, cs: CharSet<'_>) -> (n: usize)
    ensures
        n == trail(v@, cs),
        n <= v.len(),
{
    let mut i: usize = v.len();
    assert(v@.take(i as int) =~= v@);
    while i > 0
        invariant
            0 <= i <= v.len(),
            trail(v@, cs) == (v.len() - i) + trail(v@.take(i as int), cs),
        decreases i,
    {
        if !set_has(cs, v[i - 1]) {
            return v.len() - i;
        }
        assert(v@.take(i as int).drop_last() =~= v@.take(i - 1));
        i -= 1;
    }
    v.len() - i
}

/// `s` without the characters of the set at its front.
pub open spec fn trim_start_set(s: Seq<char>, cs: CharSet<'_>) -> Seq<char> {
    s.skip(lead(s, cs, true) as int)
}

/// `s` without the characters of the set at its back.
pub open spec fn trim_end_set(s: Seq<char>, cs: CharSet<'_>) -> Seq<char> {
    s.take(s.len() - trail(s, cs))
}

/// `s` without the characters of the set at either end.
pub open spec fn trim_set(s: Seq<char>, cs: CharSet<'_>) -> Seq<char> {
    trim_end_set(trim_start_set(s, cs), cs)
}

/// `s` without white space at either end.
pub open spec fn trim(s: Seq<char>) -> Seq<char> {
    trim_set(s, CharSet::White)
}

/// Trimming takes characters of the set off both ends, all that stand there,
/// and nothing else.
pub proof fn trimming_takes_the_ends(s: Seq<char>, cs: CharSet<'_>)
    ensures
        exists|i: int, j: int|
            0 <= i <= j <= s.len() && trim_set(s, cs) == #[trigger] s.subrange(i, j) && (forall|k: int|
                0 <= k < i || j <= k < s.len() ==> in_set(cs, #[trigger] s[k])) && (i < j ==> !in_set(
                cs,
                s[i],
            ) && !in_set(cs, s[j - 1])),
{
    let i = lead(s, cs, true) as int;
    lead_bound(s, cs, true);
    let t = s.skip(i);
    let n = trail(t, cs) as int;
    trail_bound(t, cs);
    let j = s.len() - n;
    assert(t.take(t.len() - n) =~= s.subrange(i, j));
    assert forall|k: int| 0 <= k < i || j <= k < s.len() implies in_set(cs, #[trigger] s[k]) by {
        if k >= j {
            assert(t[k - i] == s[k]);
        }
    }
    if i < j {
        assert(t[j - 1 - i] == s[j - 1]);
    }
}

proof fn lead_with(s: Seq<char>, cs: CharSet<'_>, c: char)
    ensures
        lead(s.push(c), cs, true) == (if lead(s, cs, true) < s.len() || !in_set(cs, c) {
            lead(s, cs, true)
        } else {
            (s.len() + 1) as nat
        }),
    decreases s.len(),
{
    lead_bound(s, cs, true);
    if s.len() == 0 {
        assert(s.push(c).skip(1) =~= s);
    } else if in_set(cs, s[0]) {
        lead_with(s.skip(1), cs, c);
        assert(s.push(c).skip(1) =~= s.skip(1).push(c));
    }
}

/// White space behind a text does not matter once it is trimmed.
pub proof fn trim_drops_white(s: Seq<char>, c: char)
    requires
        is_white(c),
    ensures
        trim(s.push(c)) == trim(s),
{
    lead_bound(s, CharSet::White, true);
    lead_with(s, CharSet::White, c);
    let n = lead(s, CharSet::White, true) as int;
    if n < s.len() {
        let t = s.skip(n);
        trail_bound(t, CharSet::White);
        assert(s.push(c).skip(n) =~= t.push(c));
        assert(t.push(c).drop_last() =~= t);
        assert(trim(s.push(c)) =~= trim(s));
    } else {
        assert(s.push(c).skip(n + 1) =~= s.skip(n));
    }
}

pub fn trim_front_by(s: &str, cs: CharSet<'_>) -> (r: String)
    ensures
        r@ == trim_start_set(s@, cs),
{
    let v = to_chars(s);
    let n: usize = lead_chars(&v, 0, cs, true);
    assert(v@.skip(0) =~= s@);
    assert(v@.subrange(n as int, v@.len() as int) =~= s@.skip(n as int));
    from_chars(&v, n, v.len())
}

pub fn trim_back_by(s: &str, cs: CharSet<'_>) -> (r: String)
    ensures
        r@ == trim_end_set(s@, cs),
{
    let v = to_chars(s);
    let n: usize = trail_chars(&v, cs);
    assert(v@.subrange(0, v@.len() - n) =~= s@.take(s@.len() - n));
    from_chars(&v, 0, v.len() - n)
}

pub fn trim_by(s: &str, cs: CharSet<'_>) -> (r: String)
    ensures
        r@ == trim_set(s@, cs),
{
    let t = trim_front_by(s, cs);
    trim_back_by(t.as_str(), cs)
}

/// `s` without white space at either end.
pub fn trimmed(s: &str) -> (r: String)
    ensures
        r@ == trim(s@),
{
    trim_by(s, CharSet::White)
}


/// The position of the last character of the set.
pub open spec fn last_of(s: Seq<char>, cs: CharSet<'_>) -> Option<int>
    decreases s.len(),
{
    if s.len() == 0 {
        None
    } else if in_set(cs, s.last()) {
        Some(s.len() - 1)
    } else {
        last_of(s.drop_last(), cs)
    }
}

/// The position of the last character of the set.
pub fn rfind_set(s: &str, cs: CharSet<'_>) -> (r: Option<usize>)
    ensures
        opt_int(r) == last_of(s@, cs),
        r is Some ==> r->0 < s@.len() <= usize::MAX,
{
    let v = to_chars(s);
    let mut i: usize = v.len();
    assert(v@.take(i as int) =~= s@);
    while i > 0
        invariant
            i <= v.len(),
            v@ == s@,
            last_of(s@, cs) == last_of(v@.take(i as int), cs),
        decreases i,
    {
        if set_has(cs, v[i - 1]) {
            return Some(i - 1);
        }
        assert(v@.take(i as int).drop_last() =~= v@.take(i - 1));
        i -= 1;
    }
    None
}

/// The last position at which `p` stands in `s`.
pub open spec fn find_last(s: Seq<char>, p: Seq<char>) -> Option<int>
    decreases s.len(),
{
    if ends(s, p) {
        Some(s.len() - p.len())
    } else if s.len() == 0 {
        None
    } else {
        find_last(s.drop_last(), p)
    }
}

/// The last position at which `p` stands in `s`.
pub fn rfind_str(s: &str, p: &str) -> (r: Option<usize>)
    ensures
        opt_int(r) == find_last(s@, p@),
        r is Some ==> r->0 + p@.len() <= s@.len() <= usize::MAX,
{
    let v = to_chars(s);
    let q = to_chars(p);
    let mut i: usize = v.len();
    assert(v@.take(i as int) =~= s@);
    loop
        invariant
            i <= v.len(),
            v@ == s@,
            q@ == p@,
            find_last(s@, p@) == find_last(v@.take(i as int), p@),
        decreases i,
    {
        if q.len() <= i {
            let at: usize = i - q.len();
            proof {
                let t = v@.take(i as int);
                assert(t.subrange(at as int, at + p@.len()) =~= v@.subrange(
                    at as int,
                    at + p@.len(),
                ));
            }
            if chars_at(&v, &q, at) {
                return Some(at);
            }
        }
        if i == 0 {
            return None;
        }
        assert(v@.take(i as int).drop_last() =~= v@.take(i - 1));
        i -= 1;
    }
}

/// The contents of a list of string slices.
pub open spec fn texts(v: Seq<&str>) -> Seq<Seq<char>> {
    Seq::new(v.len(), |i: int| v[i]@)
}

/// Whether one of the strings is `s`.
pub fn one_of(s: &str, list: &[&str]) -> (r: bool)
    ensures
        r == texts(list@).contains(s@),
{
    let mut i: usize = 0;
    while i < list.len()
        invariant
            i <= list.len(),
            forall|k: int| 0 <= k < i ==> (#[trigger] texts(list@)[k]) != s@,
        decreases list.len() - i,
    {
        if same(list[i], s) {
            assert(texts(list@)[i as int] == s@);
            return true;
        }
        i += 1;
    }
    false
}

/// Whether one of the strings is `s`.
pub fn listed(s: &str, list: &Vec<String>) -> (r: bool)
    ensures
        r == views(list@).contains(s@),
{
    let mut i: usize = 0;
    while i < list.len()
        invariant
            i <= list.len(),
            forall|k: int| 0 <= k < i ==> (#[trigger] views(list@)[k]) != s@,
        decreases list.len() - i,
    {
        if same(list[i].as_str(), s) {
            assert(views(list@)[i as int] == s@);
            return true;
        }
        i += 1;
    }
    false
}

/// A text holds each of its parts.
pub proof fn part_is_held(a: Seq<char>, p: Seq<char>, b: Seq<char>)
    ensures
        contains(a + p + b, p),
{
    let s = a + p + b;
    let n = a.len() as int;
    assert(s.subrange(n, n + p.len()) =~= p);
    assert(occurs_at(s, p, n));
}

/// What holds a part holds the parts of that part.
pub proof fn part_of_part(s: Seq<char>, p: Seq<char>, q: Seq<char>)
    requires
        contains(s, p),
        contains(p, q),
    ensures
        contains(s, q),
{
    let i = choose|i: int| occurs_at(s, p, i);
    let j = choose|j: int| occurs_at(p, q, j);
    let m = i + p.len();
    assert(s.subrange(i + j, i + j + q.len()) =~= s.subrange(i, m).subrange(j, j + q.len()));
    assert(occurs_at(s, q, i + j));
}

} // verus!
