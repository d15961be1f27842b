//! Getting JSON out of what a model wrote.

use crate::pieces;
use crate::pieces::{trim_back_text, trim_front_text};
use crate::text;
use crate::text::{
    count, cut, from_chars, lead_chars, to_chars, trim_back_by, trim_front_by, trimmed, without_first,
    CharSet,
};
use vstd::prelude::*;

verus! {

// ── Fences ───────────────────────────────────────────────────────────────────

/// `s` without one round of opening fences and the white space behind them.
pub open spec fn less_fenced(s: Seq<char>) -> Seq<char> {
    text::trim_start_set(
        pieces::trim_start_text(pieces::trim_start_text(s, "```json"@), "```"@),
        CharSet::White,
    )
}

/// `s` without the fences at its front.
pub open spec fn unfenced(s: Seq<char>) -> Seq<char>
    decreases s.len(),
{
    if less_fenced(s).len() < s.len() {
        unfenced(less_fenced(s))
    } else {
        s
    }
}

/// `s` without fences and white space at either end.
pub open spec fn bare(s: Seq<char>) -> Seq<char> {
    text::trim_end_set(
        pieces::trim_end_text(unfenced(text::trim(s)), "```"@),
        CharSet::White,
    )
}

proof fn trim_start_text_len(s: Seq<char>, p: Seq<char>)
    ensures
        pieces::trim_start_text(s, p).len() <= s.len(),
        pieces::trim_start_text(s, p).len() == s.len() ==> pieces::trim_start_text(s, p) == s,
    decreases s.len(),
{
    if p.len() > 0 && text::begins(s, p) {
        trim_start_text_len(s.skip(p.len() as int), p);
    }
}

proof fn less_fenced_len(s: Seq<char>)
    ensures
        less_fenced(s).len() <= s.len(),
        less_fenced(s).len() == s.len() ==> less_fenced(s) == s,
{
    let a = pieces::trim_start_text(s, "```json"@);
    let b = pieces::trim_start_text(a, "```"@);
    trim_start_text_len(s, "```json"@);
    trim_start_text_len(a, "```"@);
    text::lead_bound(b, CharSet::White, true);
    if less_fenced(s).len() == s.len() {
        assert(b.skip(0) =~= b);
    }
}

fn strip_fences(s: String) -> (r: String)
    ensures
        r@ == unfenced(s@),
    decreases s@.len(),
{
    proof {
        reveal_strlit("```json");
        reveal_strlit("```");
        less_fenced_len(s@);
    }
    let a = trim_front_text(s.as_str(), "```json");
    let b = trim_front_text(a.as_str(), "```");
    let t = trim_front_by(b.as_str(), CharSet::White);
    if count(t.as_str()) < count(s.as_str()) {
        strip_fences(t)
    } else {
        s
    }
}

// ── Doubled braces ───────────────────────────────────────────────────────────

pub open spec fn opening(c: char) -> bool {
    c == '{' || c == '['
}

/// How much white space and how many opening braces follow the first
/// character.
pub open spec fn opening_run(s: Seq<char>) -> nat {
    text::lead(s.skip(1), CharSet::WhiteOr("{["), true)
}

/// Whether another opening brace follows the first character, with nothing
/// but white space between.
pub open spec fn doubled(s: Seq<char>) -> bool {
    exists|i: int| 1 <= i <= opening_run(s) && opening(#[trigger] s[i])
}

/// `s`, which begins with an opening brace, with that one brace in place of
/// several.
pub open spec fn collapsed(s: Seq<char>) -> Option<Seq<char>> {
    if s.len() == 0 || !opening(s[0]) {
        None
    } else if doubled(s) {
        Some(seq![s[0]] + s.skip(1int + opening_run(s)))
    } else {
        Some(s)
    }
}

/// Drops the opening braces that are there too often.
pub fn collapse_duplicate_braces(input: &str) -> (r: Option<String>)
    ensures
        text::opt_text(r) == collapsed(input@),
{
    let v = to_chars(input);
    if v.len() == 0 || !(v[0] == '{' || v[0] == '[') {
        return None;
    }
    let n: usize = lead_chars(&v, 1, CharSet::WhiteOr("{["), true);
    let mut doubled: bool = false;
    let mut i: usize = 1;
    while i <= n
        invariant
            1 <= i <= n + 1,
            1 + n <= v.len(),
            v@ == input@,
            doubled == exists|k: int| 1 <= k < i && opening(#[trigger] input@[k]),
        decreases n + 1 - i,
    {
        if v[i] == '{' || v[i] == '[' {
            assert(opening(input@[i as int]));
            doubled = true;
        }
        i += 1;
    }
    if doubled {
        let mut s = from_chars(&v, 0, 1);
        let rest = from_chars(&v, 1 + n, v.len());
        s.append(rest.as_str());
        assert(s@ =~= seq![input@[0]] + input@.skip(1 + n));
        Some(s)
    } else {
        Some(input.to_owned())
    }
}

// ── The end of a value ───────────────────────────────────────────────────────

/// The position at which the braces that are open close: `depth` of them
/// are, `quoted` tells whether a string is open, `escaped` whether a
/// backslash stands before. Braces in strings do not count.
pub open spec fn closing(s: Seq<char>, i: int, depth: int, quoted: bool, escaped: bool) -> Option<int>
    decreases s.len() - i,
{
    if i < 0 || i >= s.len() {
        None
    } else if escaped {
        closing(s, i + 1, depth, quoted, false)
    } else if s[i] == '\\' && quoted {
        closing(s, i + 1, depth, quoted, true)
    } else if s[i] == '"' {
        closing(s, i + 1, depth, !quoted, false)
    } else if quoted {
        closing(s, i + 1, depth, quoted, false)
    } else if s[i] == '{' || s[i] == '[' {
        closing(s, i + 1, depth + 1, quoted, false)
    } else if s[i] == '}' || s[i] == ']' {
        if depth == 1 {
            Some(i)
        } else {
            closing(s, i + 1, depth - 1, quoted, false)
        }
    } else {
        closing(s, i + 1, depth, quoted, false)
    }
}

pub proof fn closing_bound(s: Seq<char>, i: int, depth: int, quoted: bool, escaped: bool)
    ensures
        closing(s, i, depth, quoted, escaped) matches Some(j) ==> i <= j < s.len() && 0 <= i && (s[j]
            == '}' || s[j] == ']'),
    decreases s.len() - i,
{
    if 0 <= i < s.len() {
        if escaped {
            closing_bound(s, i + 1, depth, quoted, false);
        } else if s[i] == '\\' && quoted {
            closing_bound(s, i + 1, depth, quoted, true);
        } else if s[i] == '"' {
            closing_bound(s, i + 1, depth, !quoted, false);
        } else if quoted {
            closing_bound(s, i + 1, depth, quoted, false);
        } else if s[i] == '{' || s[i] == '[' {
            closing_bound(s, i + 1, depth + 1, quoted, false);
        } else if s[i] == '}' || s[i] == ']' {
            closing_bound(s, i + 1, depth - 1, quoted, false);
        } else {
            closing_bound(s, i + 1, depth, quoted, false);
        }
    }
}

fn closing_at(v: &Vec<char>) -> (r: Option<usize>)
    requires
        v.len() > 0,
        opening(v@[0]),
    ensures
        text::opt_int(r) == closing(v@, 0, 0, false, false),
{
    let mut i: usize = 0;
    let mut depth: usize = 0;
    let mut quoted: bool = false;
    let mut escaped: bool = false;
    while i < v.len()
        invariant
            i <= v.len(),
            depth <= i,
            v.len() > 0,
            opening(v@[0]),
            i > 0 ==> depth > 0,
            i == 0 ==> !quoted && !escaped && depth == 0,
            closing(v@, 0, 0, false, false) == closing(v@, i as int, depth as int, quoted, escaped),
        decreases v.len() - i,
    {
        let c = v[i];
        if escaped {
            escaped = false;
        } else if c == '\\' && quoted {
            escaped = true;
        } else if c == '"' {
            quoted = !quoted;
        } else if quoted {
        } else if c == '{' || c == '[' {
            depth += 1;
        } else if c == '}' || c == ']' {
            if depth == 1 {
                return Some(i);
            }
            depth -= 1;
        }
        i += 1;
    }
    None
}

/// Whether the opening braces of `s` stand as they should: they close, and
/// no object begins where the name of a member belongs.
pub open spec fn stands(s: Seq<char>) -> bool {
    closing(s, 0, 0, false, false) is Some && !(s[0] == '{' && doubled(s))
}

/// The value that `s` begins with. Opening braces that are there too often
/// are taken once.
pub open spec fn value_of(s: Seq<char>) -> Option<Seq<char>> {
    let c = if stands(s) {
        Some(s)
    } else {
        collapsed(s)
    };
    match c {
        Some(c) => match closing(c, 0, 0, false, false) {
            Some(end) => Some(c.take(end + 1)),
            None => None,
        },
        None => None,
    }
}

/// The JSON value that a text holds: from its first brace to the brace that
/// closes it.
pub open spec fn json_within(s: Seq<char>) -> Option<Seq<char>> {
    let t = bare(s);
    let n = text::lead(t, CharSet::OneOf("{["), false);
    if n >= t.len() {
        None
    } else {
        value_of(t.skip(n as int))
    }
}

fn up_to_close(s: &str) -> (r: Option<String>)
    requires
        s@.len() > 0,
        opening(s@[0]),
    ensures
        text::opt_text(r) == (match closing(s@, 0, 0, false, false) {
            Some(end) => Some(s@.take(end + 1)),
            None => None,
        }),
{
    let v = to_chars(s);
    proof {
        closing_bound(v@, 0, 0, false, false);
    }
    match closing_at(&v) {
        Some(e) => {
            let r = cut(s, 0, e + 1);
            assert(r@ =~= s@.take(e + 1));
            Some(r)
        },
        None => None,
    }
}

/// Finds the JSON value in what a model wrote.
pub fn extract_json(input: &str) -> (r: Option<String>)
    ensures
        text::opt_text(r) == json_within(input@),
{
    let t = trimmed(input);
    let t = strip_fences(t);
    proof {
        reveal_strlit("```");
        reveal_strlit("{[");
    }
    let t = trim_back_text(t.as_str(), "```");
    let t = trim_back_by(t.as_str(), CharSet::White);
    let v = to_chars(t.as_str());
    assert(v@.skip(0) =~= v@);
    let n: usize = lead_chars(&v, 0, CharSet::OneOf("{["), false);
    if n == v.len() {
        return None;
    }
    let from = without_first(t.as_str(), n);
    proof {
        text::lead_bound(v@, CharSet::OneOf("{["), false);
        text::lead_bound(from@.skip(1), CharSet::WhiteOr("{["), true);
        assert("{["@.contains(v@[n as int]));
        assert(opening(from@[0]));
        assert(collapsed(from@)->0.len() < from@.len() <==> doubled(from@));
    }
    let c = match collapse_duplicate_braces(from.as_str()) {
        Some(c) => c,
        None => {
            return None;
        },
    };
    let whole = up_to_close(from.as_str());
    // A collapsed text is shorter than the whole.
    if whole.is_some() && !(v[n] == '{' && count(c.as_str()) < count(from.as_str())) {
        return whole;
    }
    up_to_close(c.as_str())
}

// ── Raw control characters ───────────────────────────────────────────────────

pub open spec fn hex_digit(n: int) -> char {
    if n < 10 {
        (0x30 + n) as char
    } else {
        (0x57 + n) as char
    }
}

/// How JSON writes a control character.
pub open spec fn escape(c: char) -> Seq<char> {
    if c == '\n' {
        "\\n"@
    } else if c == '\r' {
        "\\r"@
    } else if c == '\t' {
        "\\t"@
    } else {
        "\\u00"@ + seq![hex_digit((c as u32) as int / 16), hex_digit((c as u32) as int % 16)]
    }
}

/// `s` with the control characters inside its strings written as JSON wants
/// them; what a backslash stands before is left alone.
pub open spec fn sanitized(s: Seq<char>, quoted: bool, escaped: bool) -> Seq<char>
    decreases s.len(),
{
    if s.len() == 0 {
        s
    } else {
        let c = s[0];
        let rest = s.skip(1);
        if escaped {
            seq![c] + sanitized(rest, quoted, false)
        } else if c == '\\' && quoted {
            seq![c] + sanitized(rest, quoted, true)
        } else if c == '"' {
            seq![c] + sanitized(rest, !quoted, false)
        } else if quoted && (c as u32) < 0x20 {
            escape(c) + sanitized(rest, quoted, false)
        } else {
            seq![c] + sanitized(rest, quoted, false)
        }
    }
}

fn hex(n: u32) -> (c: char)
    requires
        n < 16,
    ensures
        c == hex_digit(n as int),
{
    match n {
        0 => '0',
        1 => '1',
        2 => '2',
        3 => '3',
        4 => '4',
        5 => '5',
        6 => '6',
        7 => '7',
        8 => '8',
        9 => '9',
        10 => 'a',
        11 => 'b',
        12 => 'c',
        13 => 'd',
        14 => 'e',
        _ => 'f',
    }
}

fn push_escape(out: &mut String, c: char)
    requires
        (c as u32) < 0x20,
    ensures
        final(out)@ == old(out)@ + escape(c),
{
    let ghost before = out@;
    if c == '\n' {
        out.append("\\n");
    } else if c == '\r' {
        out.append("\\r");
    } else if c == '\t' {
        out.append("\\t");
    } else {
        let n: u32 = c as u32;
        out.append("\\u00");
        out.push(hex(n / 16));
        out.push(hex(n % 16));
        assert(out@ =~= before + escape(c));
    }
}

/// Writes raw control characters inside strings as JSON wants them.
pub fn sanitize_json_strings(input: &str) -> (out: String)
    ensures
        out@ == sanitized(input@, false, false),
{
    let v = to_chars(input);
    let mut out = String::new();
    let mut quoted: bool = false;
    let mut escaped: bool = false;
    let mut i: usize = 0;
    assert(v@.skip(0) =~= v@);
    assert(out@ + sanitized(v@.skip(0), false, false) =~= sanitized(v@, false, false));
    while i < v.len()
        invariant
            i <= v.len(),
            v@ == input@,
            out@ + sanitized(v@.skip(i as int), quoted, escaped) == sanitized(input@, false, false),
        decreases v.len() - i,
    {
        let c = v[i];
        let ghost rest = v@.skip(i as int);
        let ghost before = out@;
        let ghost was = sanitized(rest, quoted, escaped);
        assert(rest.skip(1) =~= v@.skip(i + 1));
        if escaped {
            out.push(c);
            escaped = false;
        } else if c == '\\' && quoted {
            out.push(c);
            escaped = true;
        } else if c == '"' {
            quoted = !quoted;
            out.push(c);
        } else if quoted && (c as u32) < 0x20 {
            push_escape(&mut out, c);
        } else {
            out.push(c);
        }
        assert(out@ + sanitized(v@.skip(i + 1), quoted, escaped) =~= before + was);
        i += 1;
    }
    assert(v@.skip(i as int) =~= Seq::<char>::empty());
    assert(out@ =~= sanitized(input@, false, false));
    out
}


// ── What repair keeps ────────────────────────────────────────────────────────

proof fn escape_is_final(c: char, t: Seq<char>)
    requires
        (c as u32) < 0x20,
    ensures
        sanitized(escape(c) + t, true, false) == escape(c) + sanitized(t, true, false),
{
    reveal_strlit("\\n");
    reveal_strlit("\\r");
    reveal_strlit("\\t");
    reveal_strlit("\\u00");
    let e = escape(c);
    let s = e + t;
    assert(e[0] == '\\');
    assert(s[0] == '\\');
    let r1 = s.skip(1);
    if c == '\n' || c == '\r' || c == '\t' {
        assert(e.len() == 2);
        assert(r1.skip(1) =~= t);
        assert(sanitized(r1, true, true) == seq![r1[0]] + sanitized(t, true, false));
        assert(seq![s[0]] + (seq![r1[0]] + sanitized(t, true, false)) =~= e + sanitized(
            t,
            true,
            false,
        ));
    } else {
        assert(e.len() == 6);
        let r2 = r1.skip(1);
        let r3 = r2.skip(1);
        let r4 = r3.skip(1);
        let r5 = r4.skip(1);
        assert(r5.skip(1) =~= t);
        assert(r1[0] == 'u' && r2[0] == '0' && r3[0] == '0');
        assert(r4[0] == e[4] && r5[0] == e[5]);
        let n = (c as u32) as int;
        assert(e[4] == hex_digit(n / 16));
        assert(e[5] == hex_digit(n % 16));
        assert(0 <= n / 16 < 2);
        assert(0 <= n % 16 < 16);
        assert(sanitized(r5, true, false) == seq![r5[0]] + sanitized(t, true, false));
        assert(sanitized(r4, true, false) == seq![r4[0]] + sanitized(r5, true, false));
        assert(sanitized(r3, true, false) == seq![r3[0]] + sanitized(r4, true, false));
        assert(sanitized(r2, true, false) == seq![r2[0]] + sanitized(r3, true, false));
        assert(sanitized(r1, true, true) == seq![r1[0]] + sanitized(r2, true, false));
        assert(sanitized(s, true, false) == seq![s[0]] + sanitized(r1, true, true));
        assert(sanitized(s, true, false) =~= e + sanitized(t, true, false));
    }
}

/// Cleaning strings a second time changes nothing: what was escaped is not
/// escaped again.
pub proof fn sanitized_once(s: Seq<char>, quoted: bool, escaped: bool)
    ensures
        sanitized(sanitized(s, quoted, escaped), quoted, escaped) == sanitized(s, quoted, escaped),
    decreases s.len(),
{
    if s.len() > 0 {
        let c = s[0];
        let rest = s.skip(1);
        let done = sanitized(s, quoted, escaped);
        if escaped {
            sanitized_once(rest, quoted, false);
            assert(done.skip(1) =~= sanitized(rest, quoted, false));
        } else if c == '\\' && quoted {
            sanitized_once(rest, quoted, true);
            assert(done.skip(1) =~= sanitized(rest, quoted, true));
        } else if c == '"' {
            sanitized_once(rest, !quoted, false);
            assert(done.skip(1) =~= sanitized(rest, !quoted, false));
        } else if quoted && (c as u32) < 0x20 {
            sanitized_once(rest, quoted, false);
            escape_is_final(c, sanitized(rest, quoted, false));
        } else {
            sanitized_once(rest, quoted, false);
            assert(done.skip(1) =~= sanitized(rest, quoted, false));
        }
    }
}

/// A text without control characters is left as it is.
pub proof fn sanitized_clean(s: Seq<char>, quoted: bool, escaped: bool)
    requires
        forall|i: int| 0 <= i < s.len() ==> (#[trigger] s[i] as u32) >= 0x20,
    ensures
        sanitized(s, quoted, escaped) == s,
    decreases s.len(),
{
    if s.len() > 0 {
        let rest = s.skip(1);
        assert forall|i: int| 0 <= i < rest.len() implies (#[trigger] rest[i] as u32) >= 0x20 by {
            assert(rest[i] == s[i + 1]);
        }
        assert((s[0] as u32) >= 0x20);
        sanitized_clean(rest, quoted, false);
        sanitized_clean(rest, quoted, true);
        sanitized_clean(rest, !quoted, false);
        assert(seq![s[0]] + rest =~= s);
    }
}

proof fn closing_prefix(s: Seq<char>, k: int, i: int, depth: int, quoted: bool, escaped: bool)
    requires
        closing(s, i, depth, quoted, escaped) matches Some(j) && j < k <= s.len(),
    ensures
        closing(s.take(k), i, depth, quoted, escaped) == closing(s, i, depth, quoted, escaped),
    decreases s.len() - i,
{
    closing_bound(s, i, depth, quoted, escaped);
    let t = s.take(k);
    assert(t[i] == s[i]);
    if escaped {
        closing_prefix(s, k, i + 1, depth, quoted, false);
    } else if s[i] == '\\' && quoted {
        closing_prefix(s, k, i + 1, depth, quoted, true);
    } else if s[i] == '"' {
        closing_prefix(s, k, i + 1, depth, !quoted, false);
    } else if quoted {
        closing_prefix(s, k, i + 1, depth, quoted, false);
    } else if s[i] == '{' || s[i] == '[' {
        closing_prefix(s, k, i + 1, depth + 1, quoted, false);
    } else if s[i] == '}' || s[i] == ']' {
        if depth != 1 {
            closing_prefix(s, k, i + 1, depth - 1, quoted, false);
        }
    } else {
        closing_prefix(s, k, i + 1, depth, quoted, false);
    }
}

proof fn no_fence_at_brace(s: Seq<char>)
    requires
        s.len() > 0,
        opening(s[0]),
    ensures
        unfenced(s) == s,
        text::trim_start_set(s, CharSet::White) == s,
{
    reveal_strlit("```json");
    reveal_strlit("```");
    assert(!text::begins(s, "```json"@)) by {
        if text::begins(s, "```json"@) {
            assert(s.subrange(0, 7)[0] == s[0]);
            assert("```json"@[0] == '`');
        }
    }
    assert(!text::begins(s, "```"@)) by {
        if text::begins(s, "```"@) {
            assert(s.subrange(0, 3)[0] == s[0]);
            assert("```"@[0] == '`');
        }
    }
    assert(!text::is_white(s[0]));
    assert(text::lead(s, CharSet::White, true) == 0);
    assert(s.skip(0) =~= s);
}

proof fn no_fence_behind_brace(s: Seq<char>)
    requires
        s.len() > 0,
        s.last() == '}' || s.last() == ']',
    ensures
        pieces::trim_end_text(s, "```"@) == s,
        text::trim_end_set(s, CharSet::White) == s,
{
    reveal_strlit("```");
    assert(!text::ends(s, "```"@)) by {
        if text::ends(s, "```"@) {
            assert(s.subrange(s.len() - 3, s.len() as int)[2] == s.last());
            assert("```"@[2] == '`');
        }
    }
    assert(text::trail(s, CharSet::White) == 0);
    assert(s.take(s.len() as int) =~= s);
}

/// A value that stands by itself comes back as it is.
pub proof fn whole_value_is_kept(s: Seq<char>)
    requires
        s.len() > 0,
        opening(s[0]),
        stands(s),
        closing(s, 0, 0, false, false) == Some(s.len() - 1),
    ensures
        json_within(s) == Some(s),
{
    reveal_strlit("{[");
    closing_bound(s, 0, 0, false, false);
    assert(s.last() == s[s.len() - 1]);
    no_fence_at_brace(s);
    no_fence_behind_brace(s);
    assert(text::trim(s) == s);
    assert(bare(s) == s);
    assert("{["@[0] == '{' && "{["@[1] == '[');
    assert("{["@.contains(s[0]));
    assert(text::lead(s, CharSet::OneOf("{["), false) == 0);
    assert(s.skip(0) =~= s);
    assert(s.take(s.len() as int) =~= s);
}

/// What was extracted is a value by itself: extracting again gives it back.
pub proof fn extracted_once(s: Seq<char>)
    requires
        json_within(s) is Some,
    ensures
        json_within(json_within(s)->0) == json_within(s),
{
    reveal_strlit("{[");
    let t = bare(s);
    let n = text::lead(t, CharSet::OneOf("{["), false) as int;
    text::lead_bound(t, CharSet::OneOf("{["), false);
    let from = t.skip(n);
    let c = if stands(from) {
        from
    } else {
        collapsed(from)->0
    };
    let end = closing(c, 0, 0, false, false)->0;
    let r = c.take(end + 1);
    closing_bound(c, 0, 0, false, false);
    assert("{["@.contains(t[n]));
    assert(from[0] == t[n]);
    assert(c[0] == from[0]);
    assert(opening(r[0]));
    // No brace of an object is doubled any more.
    let cs = CharSet::WhiteOr("{[");
    assert(!(r[0] == '{' && doubled(r))) by {
        if doubled(r) {
            let i = choose|i: int| 1 <= i <= opening_run(r) && opening(#[trigger] r[i]);
            text::lead_bound(r.skip(1), cs, true);
            text::lead_bound(from.skip(1), cs, true);
            text::lead_bound(c.skip(1), cs, true);
            run_prefix(c, end + 1);
            if c == from {
                assert(from[i] == r[i]);
                assert(1 <= i <= opening_run(from) && opening(from[i]));
                assert(doubled(from));
            } else {
                let m = opening_run(from) as int;
                assert(c.len() > 1);
                assert(c[1] == from[1 + m]);
                assert(from.skip(1)[m] == from[1 + m]);
                assert(!text::in_set(cs, from.skip(1)[m]));
                assert(c.skip(1)[0] == c[1]);
                assert(opening_run(c) == 0);
                assert(false);
            }
        }
    }
    closing_prefix(c, end + 1, 0, 0, false, false);
    whole_value_is_kept(r);
}

proof fn run_prefix(s: Seq<char>, k: int)
    requires
        1 <= k <= s.len(),
    ensures
        opening_run(s.take(k)) <= opening_run(s),
{
    lead_prefix(s.skip(1), k - 1);
    assert(s.take(k).skip(1) =~= s.skip(1).take(k - 1));
}

proof fn lead_prefix(s: Seq<char>, k: int)
    requires
        0 <= k <= s.len(),
    ensures
        text::lead(s.take(k), CharSet::WhiteOr("{["), true) <= text::lead(
            s,
            CharSet::WhiteOr("{["),
            true,
        ),
    decreases s.len(),
{
    if k > 0 {
        let t = s.take(k);
        assert(t[0] == s[0]);
        if text::in_set(CharSet::WhiteOr("{["), s[0]) {
            lead_prefix(s.skip(1), k - 1);
            assert(t.skip(1) =~= s.skip(1).take(k - 1));
        }
    }
}

/// What was extracted begins with an opening brace and ends with a closing
/// one.
pub proof fn extracted_is_braced(s: Seq<char>)
    requires
        json_within(s) is Some,
    ensures
        json_within(s)->0.len() > 0,
        opening(json_within(s)->0[0]),
        json_within(s)->0.last() == '}' || json_within(s)->0.last() == ']',
{
    let t = bare(s);
    let n = text::lead(t, CharSet::OneOf("{["), false) as int;
    let from = t.skip(n);
    let c = if stands(from) {
        from
    } else {
        collapsed(from)->0
    };
    closing_bound(c, 0, 0, false, false);
    text::lead_bound(t, CharSet::OneOf("{["), false);
    reveal_strlit("{[");
    assert("{["@.contains(t[n]));
}

// ── What a scan passes over ──────────────────────────────────────────────────

proof fn scan_goes_on(s: Seq<char>, i: int, j: int, depth: int, quoted: bool)
    requires
        0 <= i <= j <= s.len(),
        forall|k: int|
            i <= k < j ==> (#[trigger] s[k]) != '"' && (quoted ==> s[k] != '\\') && (!quoted ==> s[k]
                != '{' && s[k] != '}' && s[k] != '[' && s[k] != ']'),
    ensures
        closing(s, i, depth, quoted, false) == closing(s, j, depth, quoted, false),
    decreases j - i,
{
    if i < j {
        scan_goes_on(s, i + 1, j, depth, quoted);
    }
}

/// A value ends where as many braces are closed as were opened, and what
/// stands in quotes does not count: of an object with a nested one and a
/// string, the last brace closes it.
pub proof fn value_ends_with_its_brace(
    a: Seq<char>,
    t: Seq<char>,
    b: Seq<char>,
    inner: Seq<char>,
    c: Seq<char>,
    rest: Seq<char>,
)
    requires
        plain_part(a),
        plain_part(b),
        plain_part(inner),
        plain_part(c),
        !t.contains('"'),
        !t.contains('\\'),
    ensures
        ({
            let v = seq!['{'] + a + seq!['"'] + t + seq!['"'] + b + seq!['{'] + inner + seq!['}'] + c
                + seq!['}'];
            closing(v + rest, 0, 0, false, false) == Some(v.len() - 1)
        }),
{
    let v = seq!['{'] + a + seq!['"'] + t + seq!['"'] + b + seq!['{'] + inner + seq!['}'] + c + seq![
        '}',
    ];
    let s = v + rest;
    let p1 = 1 + a.len() as int;
    let p2 = p1 + 1 + t.len();
    let p3 = p2 + 1 + b.len();
    let p4 = p3 + 1 + inner.len();
    let p5 = p4 + 1 + c.len();
    assert(s[0] == '{' && s[p1] == '"' && s[p2] == '"' && s[p3] == '{' && s[p4] == '}' && s[p5] == '}');
    assert forall|k: int| 1 <= k < p1 implies #[trigger] s[k] == a[k - 1] by {}
    assert forall|k: int| p1 + 1 <= k < p2 implies #[trigger] s[k] == t[k - p1 - 1] by {}
    assert forall|k: int| p2 + 1 <= k < p3 implies #[trigger] s[k] == b[k - p2 - 1] by {}
    assert forall|k: int| p3 + 1 <= k < p4 implies #[trigger] s[k] == inner[k - p3 - 1] by {}
    assert forall|k: int| p4 + 1 <= k < p5 implies #[trigger] s[k] == c[k - p4 - 1] by {}
    scan_goes_on(s, 1, p1, 1, false);
    assert forall|k: int| p1 + 1 <= k < p2 implies (#[trigger] s[k]) != '"' && s[k] != '\\' by {
        assert(t.contains(t[k - p1 - 1]));
    }
    scan_goes_on(s, p1 + 1, p2, 1, true);
    scan_goes_on(s, p2 + 1, p3, 1, false);
    scan_goes_on(s, p3 + 1, p4, 2, false);
    scan_goes_on(s, p4 + 1, p5, 1, false);
    assert(closing(s, 0, 0, false, false) == closing(s, 1, 1, false, false));
    assert(closing(s, p1, 1, false, false) == closing(s, p1 + 1, 1, true, false));
    assert(closing(s, p2, 1, true, false) == closing(s, p2 + 1, 1, false, false));
    assert(closing(s, p3, 1, false, false) == closing(s, p3 + 1, 2, false, false));
    assert(closing(s, p4, 2, false, false) == closing(s, p4 + 1, 1, false, false));
    assert(closing(s, p5, 1, false, false) == Some(p5));
}

/// A part of a value that holds neither braces nor quotes.
pub open spec fn plain_part(s: Seq<char>) -> bool {
    forall|i: int|
        0 <= i < s.len() ==> (#[trigger] s[i]) != '"' && s[i] != '{' && s[i] != '}' && s[i] != '[' && s[i]
            != ']'
}

proof fn plain_is_passed(a: Seq<char>, rest: Seq<char>, quoted: bool)
    requires
        forall|i: int|
            0 <= i < a.len() ==> (#[trigger] a[i]) != '"' && a[i] != '\\' && (a[i] as u32) >= 0x20,
    ensures
        sanitized(a + rest, quoted, false) == a + sanitized(rest, quoted, false),
    decreases a.len(),
{
    if a.len() == 0 {
        assert(a + rest =~= rest);
        assert(a + sanitized(rest, quoted, false) =~= sanitized(rest, quoted, false));
    } else {
        let t = a.skip(1);
        assert((a + rest).skip(1) =~= t + rest);
        assert((a + rest)[0] == a[0]);
        plain_is_passed(t, rest, quoted);
        assert(seq![a[0]] + (t + sanitized(rest, quoted, false)) =~= a + sanitized(
            rest,
            quoted,
            false,
        ));
    }
}

/// A control character in a string is written as its escape, and one outside a
/// string stays; what stands around it stays.
pub proof fn control_in_strings_is_escaped(a: Seq<char>, c: char, b: Seq<char>, rest: Seq<char>)
    requires
        forall|i: int|
            0 <= i < a.len() ==> (#[trigger] a[i]) != '"' && a[i] != '\\' && (a[i] as u32) >= 0x20,
        forall|i: int|
            0 <= i < b.len() ==> (#[trigger] b[i]) != '"' && b[i] != '\\' && (b[i] as u32) >= 0x20,
        (c as u32) < 0x20,
    ensures
        ({
            let written = if c == '\n' {
                seq!['\\', 'n']
            } else if c == '\r' {
                seq!['\\', 'r']
            } else if c == '\t' {
                seq!['\\', 't']
            } else {
                seq![
                    '\\',
                    'u',
                    '0',
                    '0',
                    if (c as u32) < 16 {
                        '0'
                    } else {
                        '1'
                    },
                    hex_digit((c as u32) as int % 16),
                ]
            };
            let quote = seq!['"'];
            sanitized(quote + a + seq![c] + b + quote + rest, false, false) == quote + a + written + b
                + quote + sanitized(rest, false, false)
        }),
        sanitized(seq![c] + rest, false, false) == seq![c] + sanitized(rest, false, false),
{
    reveal_strlit("\\n");
    reveal_strlit("\\r");
    reveal_strlit("\\t");
    reveal_strlit("\\u00");
    let quote = seq!['"'];
    let end = quote + rest;
    let two = seq![c] + (b + end);
    let s = quote + a + seq![c] + b + quote + rest;
    assert(s.skip(1) =~= a + two);
    assert(s[0] == '"');
    plain_is_passed(a, two, true);
    assert(two.skip(1) =~= b + end);
    assert(two[0] == c);
    plain_is_passed(b, end, true);
    assert(end.skip(1) =~= rest);
    assert(end[0] == '"');
    assert(sanitized(end, true, false) == quote + sanitized(rest, false, false));
    assert(sanitized(two, true, false) == escape(c) + (b + (quote + sanitized(rest, false, false))));
    let n = (c as u32) as int;
    assert(n / 16 == 0 || n / 16 == 1);
    assert(hex_digit(0) == '0' && hex_digit(1) == '1');
    let written = if c == '\n' {
        seq!['\\', 'n']
    } else if c == '\r' {
        seq!['\\', 'r']
    } else if c == '\t' {
        seq!['\\', 't']
    } else {
        seq![
            '\\',
            'u',
            '0',
            '0',
            if (c as u32) < 16 {
                '0'
            } else {
                '1'
            },
            hex_digit((c as u32) as int % 16),
        ]
    };
    assert(escape(c) =~= written);
    assert(sanitized(s, false, false) =~= quote + a + written + b + quote + sanitized(
        rest,
        false,
        false,
    ));
    assert((seq![c] + rest).skip(1) =~= rest);
}

/// An object in the midst of prose is found: it alone, without the prose.
pub proof fn object_is_found_in_prose(pre: Seq<char>, body: Seq<char>, post: Seq<char>)
    requires
        pre.len() > 0,
        !text::is_white(pre[0]) && pre[0] != '`',
        !pre.contains('{') && !pre.contains('['),
        plain_part(body),
        body.len() > 0,
        !text::is_white(body[0]),
        post.len() > 0,
        !text::is_white(post.last()) && post.last() != '`',
    ensures
        json_within(pre + (seq!['{'] + body + seq!['}']) + post) == Some(
            seq!['{'] + body + seq!['}'],
        ),
{
    reveal_strlit("{[");
    reveal_strlit("```json");
    reveal_strlit("```");
    let v = seq!['{'] + body + seq!['}'];
    let s = pre + v + post;
    assert(s[0] == pre[0] && s.last() == post.last());
    text::lead_bound(s, CharSet::White, true);
    assert(text::lead(s, CharSet::White, true) == 0);
    assert(s.skip(0) =~= s);
    assert(s.take(s.len() as int) =~= s);
    assert(text::trim(s) == s);
    if text::begins(s, "```json"@) {
        assert(s.subrange(0, 7)[0] == s[0]);
    }
    if text::begins(s, "```"@) {
        assert(s.subrange(0, 3)[0] == s[0]);
    }
    assert(less_fenced(s) == s);
    assert(unfenced(s) == s);
    let n = s.len() as int;
    if text::ends(s, "```"@) {
        assert(s.subrange(n - 3, n)[2] == s[n - 1]);
    }
    assert(bare(s) == s);
    let cs = CharSet::OneOf("{[");
    let b = "{["@;
    assert(b[0] == '{' && b[1] == '[');
    assert(b.contains('{'));
    text::lead_bound(s, cs, false);
    let k = text::lead(s, cs, false) as int;
    if k < pre.len() {
        assert(s[k] == pre[k]);
        assert(b.contains(pre[k]));
        assert(pre.contains(pre[k]));
    } else if k > pre.len() {
        assert(s[pre.len() as int] == '{');
    }
    let from = v + post;
    assert(s.skip(k) =~= from);
    let m = 1 + body.len() as int;
    assert(from[0] == '{' && from[m] == '}');
    assert forall|x: int| 1 <= x < m implies #[trigger] from[x] == body[x - 1] by {}
    scan_goes_on(from, 1, m, 1, false);
    assert(closing(from, 0, 0, false, false) == closing(from, 1, 1, false, false));
    assert(closing(from, 0, 0, false, false) == Some(m));
    text::lead_bound(from.skip(1), CharSet::WhiteOr("{["), true);
    assert(from.skip(1)[0] == body[0]);
    assert(!b.contains(body[0]));
    assert(opening_run(from) == 0);
    assert(!doubled(from));
    assert(from.take(m + 1) =~= v);
}

} // verus!
