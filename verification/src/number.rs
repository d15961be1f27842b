//! Numbers as text, and the length of text in bytes.

use crate::text;
use crate::text::{count, cut, to_chars};
use vstd::prelude::*;

verus! {

pub open spec fn digit(d: int) -> char {
    (0x30 + d) as char
}

/// The decimal digits of `n`.
pub open spec fn decimal(n: nat) -> Seq<char>
    decreases n,
{
    if n < 10 {
        seq![digit(n as int)]
    } else {
        decimal(n / 10).push(digit((n % 10) as int))
    }
}

fn digit_char(d: u64) -> (c: char)
    requires
        d < 10,
    ensures
        c == digit(d as int),
{
    match d {
        0 => '0',
        1 => '1',
        2 => '2',
        3 => '3',
        4 => '4',
        5 => '5',
        6 => '6',
        7 => '7',
        8 => '8',
        _ => '9',
    }
}

/// The decimal digits of `n`.
pub fn decimal_of(n: u64) -> (s: String)
    ensures
        s@ == decimal(n as nat),
    decreases n,
{
    if n < 10 {
        let mut s = String::new();
        s.push(digit_char(n));
        assert(s@ =~= seq![digit(n as int)]);
        s
    } else {
        let mut s = decimal_of(n / 10);
        s.push(digit_char(n % 10));
        s
    }
}

/// The decimal digits of `n`.
pub fn decimal_usize(n: usize) -> (s: String)
    ensures
        s@ == decimal(n as nat),
{
    decimal_of(n as u64)
}

/// The decimal digits of a large number.
pub fn decimal_big(n: u128) -> (s: String)
    ensures
        s@ == decimal(n as nat),
    decreases n,
{
    if n <= 0xffff_ffff_ffff_ffff {
        decimal_of(n as u64)
    } else {
        let mut s = decimal_big(n / 10);
        s.push(digit_char((n % 10) as u64));
        s
    }
}

/// A signed number: a minus sign stands before the digits of a negative one.
pub open spec fn signed(n: int) -> Seq<char> {
    if n < 0 {
        seq!['-'] + decimal((-n) as nat)
    } else {
        decimal(n as nat)
    }
}

pub fn signed_of(n: i64) -> (s: String)
    ensures
        s@ == signed(n as int),
{
    if n < 0 {
        let mut s = String::new();
        s.push('-');
        let m: u64 = (-(n + 1)) as u64 + 1;
        let d = decimal_of(m);
        s.append(d.as_str());
        assert(s@ =~= seq!['-'] + decimal((-n) as nat));
        s
    } else {
        decimal_of(n as u64)
    }
}

/// The value of a string of digits.
pub open spec fn digits_value(s: Seq<char>) -> nat
    decreases s.len(),
{
    if s.len() == 0 {
        0
    } else {
        digits_value(s.drop_last()) * 10 + (s.last() as u32 - 0x30) as nat
    }
}

pub open spec fn all_digits(s: Seq<char>) -> bool {
    s.len() > 0 && forall|i: int| 0 <= i < s.len() ==> text::ascii_digit(#[trigger] s[i])
}

/// Reading `decimal(n)` gives `n` back.
pub proof fn decimal_reads_back(n: nat)
    ensures
        all_digits(decimal(n)),
        digits_value(decimal(n)) == n,
    decreases n,
{
    if n < 10 {
        assert(decimal(n).drop_last() =~= Seq::<char>::empty());
        assert(digits_value(decimal(n).drop_last()) == 0);
    } else {
        decimal_reads_back(n / 10);
        let s = decimal(n);
        assert(s.drop_last() =~= decimal(n / 10));
        assert forall|i: int| 0 <= i < s.len() implies text::ascii_digit(#[trigger] s[i]) by {
            if i < s.len() - 1 {
                assert(decimal(n / 10)[i] == s[i]);
            }
        }
    }
}

/// The number that `str::parse` reads: a sign or none, then digits, within
/// the bounds.
pub open spec fn parsed(s: Seq<char>, low: int, high: int) -> Option<int> {
    let neg = s.len() > 0 && s[0] == '-';
    let body = if s.len() > 0 && (s[0] == '-' || s[0] == '+') {
        s.skip(1)
    } else {
        s
    };
    let value = if neg {
        -(digits_value(body) as int)
    } else {
        digits_value(body) as int
    };
    if all_digits(body) && low <= value <= high {
        Some(value)
    } else {
        None
    }
}

proof fn digits_grow(s: Seq<char>, k: int)
    requires
        0 <= k <= s.len(),
        all_digits(s),
    ensures
        digits_value(s.take(k)) <= digits_value(s),
    decreases s.len() - k,
{
    if k < s.len() {
        digits_grow(s, k + 1);
        assert(s.take(k + 1).drop_last() =~= s.take(k));
        assert(s.take(k + 1).last() == s[k]);
    } else {
        assert(s.take(k) =~= s);
    }
}

/// The value of the digits `v[from..]`, or `None` where something else
/// stands there, nothing does, or the value passes `high`.
fn read_digits(v: &Vec<char>, from: usize, high: u64) -> (r: Option<u64>)
    requires
        from <= v.len(),
    ensures
        match r {
            Some(n) => all_digits(v@.skip(from as int)) && n == digits_value(v@.skip(from as int)) && n
                <= high,
            None => !all_digits(v@.skip(from as int)) || digits_value(v@.skip(from as int)) > high,
        },
{
    let ghost s = v@.skip(from as int);
    if from == v.len() {
        return None;
    }
    let mut i: usize = from;
    let mut n: u64 = 0;
    let mut over: bool = false;
    while i < v.len()
        invariant
            from <= i <= v.len(),
            s == v@.skip(from as int),
            forall|k: int| 0 <= k < i - from ==> text::ascii_digit(#[trigger] s[k]),
            over ==> digits_value(s.take(i - from)) > high,
            !over ==> n == digits_value(s.take(i - from)) && n <= high,
        decreases v.len() - i,
    {
        let c = v[i];
        assert(c == s[i - from]);
        if !('0' <= c && c <= '9') {
            assert(!text::ascii_digit(s[i - from]));
            return None;
        }
        let d: u64 = (c as u32 - 0x30) as u64;
        proof {
            assert(s.take(i - from + 1).drop_last() =~= s.take(i - from));
            assert(s.take(i - from + 1).last() == c);
        }
        if !over {
            let m: u128 = n as u128 * 10 + d as u128;
            if m > high as u128 {
                over = true;
            } else {
                n = m as u64;
            }
        }
        i += 1;
    }
    assert(s.take(i - from) =~= s);
    if over {
        None
    } else {
        Some(n)
    }
}

/// The `i64` that a string spells.
pub fn parse_i64(s: &str) -> (r: Option<i64>)
    ensures
        match r {
            Some(n) => parsed(s@, i64::MIN as int, i64::MAX as int) == Some(n as int),
            None => parsed(s@, i64::MIN as int, i64::MAX as int) is None,
        },
{
    let v = to_chars(s);
    if v.len() > 0 && (v[0] == '-' || v[0] == '+') {
        if v[0] == '-' {
            match read_digits(&v, 1, 0x8000_0000_0000_0000) {
                Some(n) => Some(if n == 0x8000_0000_0000_0000 { i64::MIN } else { -(n as i64) }),
                None => None,
            }
        } else {
            match read_digits(&v, 1, 0x7fff_ffff_ffff_ffff) {
                Some(n) => Some(n as i64),
                None => None,
            }
        }
    } else {
        assert(v@.skip(0) =~= s@);
        match read_digits(&v, 0, 0x7fff_ffff_ffff_ffff) {
            Some(n) => Some(n as i64),
            None => None,
        }
    }
}

/// The `u64` that digits spell.
pub open spec fn unsigned(s: Seq<char>) -> Option<u64> {
    if all_digits(s) && digits_value(s) <= u64::MAX {
        Some(digits_value(s) as u64)
    } else {
        None
    }
}

pub fn parse_digits(s: &str) -> (r: Option<u64>)
    ensures
        r == unsigned(s@),
{
    let v = to_chars(s);
    assert(v@.skip(0) =~= s@);
    read_digits(&v, 0, u64::MAX)
}

/// `n` spaces.
pub open spec fn spaces(n: int) -> Seq<char> {
    Seq::new(if n < 0 { 0 } else { n as nat }, |i: int| ' ')
}

pub fn blank(n: usize) -> (s: String)
    ensures
        s@ == spaces(n as int),
{
    let mut s = String::new();
    let mut i: usize = 0;
    assert(s@ =~= spaces(0));
    while i < n
        invariant
            i <= n,
            s@ == spaces(i as int),
        decreases n - i,
    {
        s.push(' ');
        i += 1;
        assert(s@ =~= spaces(i as int));
    }
    s
}

/// `s` with spaces behind it up to `width` characters.
pub open spec fn pad_right(s: Seq<char>, width: int) -> Seq<char> {
    s + spaces(width - s.len())
}

/// `s` with spaces before it up to `width` characters.
pub open spec fn pad_left(s: Seq<char>, width: int) -> Seq<char> {
    spaces(width - s.len()) + s
}

pub fn padded_right(s: &str, width: usize) -> (r: String)
    ensures
        r@ == pad_right(s@, width as int),
{
    let n: usize = count(s);
    let mut r = s.to_owned();
    let fill = blank(if n < width { width - n } else { 0 });
    r.append(fill.as_str());
    assert(r@ =~= pad_right(s@, width as int));
    r
}

pub fn padded_left(s: &str, width: usize) -> (r: String)
    ensures
        r@ == pad_left(s@, width as int),
{
    let n: usize = count(s);
    let mut r = blank(if n < width { width - n } else { 0 });
    r.append(s);
    assert(r@ =~= pad_left(s@, width as int));
    r
}

/// How many bytes UTF-8 spends on `c`.
pub open spec fn char_width(c: char) -> nat {
    let n = c as u32;
    if n < 0x80 {
        1
    } else if n < 0x800 {
        2
    } else if n < 0x10000 {
        3
    } else {
        4
    }
}

/// The length of `s` in bytes.
pub open spec fn width(s: Seq<char>) -> nat
    decreases s.len(),
{
    if s.len() == 0 {
        0
    } else {
        width(s.drop_last()) + char_width(s.last())
    }
}

fn width_of_char(c: char) -> (n: usize)
    ensures
        n == char_width(c),
{
    let k: u32 = c as u32;
    if k < 0x80 {
        1
    } else if k < 0x800 {
        2
    } else if k < 0x10000 {
        3
    } else {
        4
    }
}

pub proof fn width_first(s: Seq<char>)
    requires
        s.len() > 0,
    ensures
        width(s) == char_width(s[0]) + width(s.skip(1)),
    decreases s.len(),
{
    if s.len() == 1 {
        assert(s.skip(1) =~= Seq::<char>::empty());
        assert(s.drop_last() =~= Seq::<char>::empty());
    } else {
        width_first(s.drop_last());
        assert(s.drop_last().skip(1) =~= s.skip(1).drop_last());
        assert(s.skip(1).last() == s.last());
    }
}

pub proof fn width_is_byte_length(s: Seq<char>)
    ensures
        vstd::utf8::encode_utf8(s).len() == width(s),
    decreases s.len(),
{
    if s.len() > 0 {
        width_is_byte_length(s.drop_first());
        assert(s.drop_first() =~= s.skip(1));
        width_first(s);
        vstd::utf8::char_is_scalar(s[0]);
        assert(vstd::utf8::encode_scalar(s[0] as u32).len() == char_width(s[0]));
    }
}

pub proof fn width_add(a: Seq<char>, b: Seq<char>)
    ensures
        width(a + b) == width(a) + width(b),
    decreases b.len(),
{
    if b.len() == 0 {
        assert(a + b =~= a);
    } else {
        width_add(a, b.drop_last());
        assert((a + b).drop_last() =~= a + b.drop_last());
    }
}

/// The length of `s` in bytes.
pub fn byte_len(s: &str) -> (n: usize)
    ensures
        n == width(s@),
{
    proof {
        width_is_byte_length(s@);
    }
    s.as_bytes().len()
}

/// How many whole characters of `s` fit into `n` bytes.
pub open spec fn fitting(s: Seq<char>, n: int) -> nat
    decreases s.len(),
{
    if width(s) <= n {
        s.len()
    } else if s.len() == 0 {
        0
    } else {
        fitting(s.drop_last(), n)
    }
}

/// The longest front of `s` of at most `n` bytes.
pub open spec fn front_bytes(s: Seq<char>, n: int) -> Seq<char> {
    s.take(fitting(s, n) as int)
}

pub proof fn fitting_bound(s: Seq<char>, n: int)
    ensures
        fitting(s, n) <= s.len(),
        n >= 0 ==> width(s.take(fitting(s, n) as int)) <= n,
    decreases s.len(),
{
    if width(s) <= n {
        assert(s.take(s.len() as int) =~= s);
    } else if s.len() > 0 {
        fitting_bound(s.drop_last(), n);
        let k = fitting(s, n) as int;
        assert(s.take(k) =~= s.drop_last().take(k));
    }
}

proof fn width_grows(s: Seq<char>, k: int)
    requires
        0 <= k <= s.len(),
    ensures
        width(s.take(k)) <= width(s),
    decreases s.len() - k,
{
    if k < s.len() {
        width_grows(s, k + 1);
        assert(s.take(k + 1).drop_last() =~= s.take(k));
    } else {
        assert(s.take(k) =~= s);
    }
}

proof fn fitting_settles(s: Seq<char>, k: int, n: int)
    requires
        0 <= k < s.len(),
        width(s.take(k)) <= n,
        width(s.take(k + 1)) > n,
    ensures
        fitting(s, n) == k,
    decreases s.len(),
{
    width_grows(s, k + 1);
    if k == s.len() - 1 {
        assert(s.take(k + 1) =~= s);
        assert(s.drop_last() =~= s.take(k));
        assert(fitting(s.drop_last(), n) == k);
    } else {
        assert(s.drop_last().take(k) =~= s.take(k));
        assert(s.drop_last().take(k + 1) =~= s.take(k + 1));
        fitting_settles(s.drop_last(), k, n);
    }
}

/// The longest front of `s` of at most `n` bytes that ends between
/// characters.
pub fn front_of_bytes(s: &str, n: usize) -> (r: String)
    ensures
        r@ == front_bytes(s@, n as int),
{
    let v = to_chars(s);
    let total: usize = byte_len(s);
    let mut i: usize = 0;
    let mut used: usize = 0;
    assert(v@.take(0) =~= Seq::<char>::empty());
    while i < v.len()
        invariant
            i <= v.len(),
            v@ == s@,
            used == width(v@.take(i as int)),
            used <= n,
            total == width(v@),
        decreases v.len() - i,
    {
        let w: usize = width_of_char(v[i]);
        proof {
            assert(v@.take(i + 1).drop_last() =~= v@.take(i as int));
            width_grows(v@, i + 1);
        }
        if used + w > n {
            proof {
                fitting_settles(s@, i as int, n as int);
            }
            assert(s@.subrange(0, i as int) =~= s@.take(i as int));
            return cut(s, 0, i);
        }
        used = used + w;
        i += 1;
    }
    assert(v@.take(i as int) =~= s@);
    assert(s@.take(s@.len() as int) =~= s@);
    s.to_owned()
}

/// A padded text is as wide as it is asked to be, or as it is: the text at one
/// end and spaces at the other.
pub proof fn padding_is_spaces(s: Seq<char>, width: int)
    ensures
        s.len() >= width ==> pad_right(s, width) == s && pad_left(s, width) == s,
        s.len() < width ==> pad_right(s, width).len() == width && pad_left(s, width).len() == width,
        pad_right(s, width).take(s.len() as int) == s,
        pad_left(s, width).skip(pad_left(s, width).len() - s.len()) == s,
        forall|i: int| s.len() <= i < width ==> #[trigger] pad_right(s, width)[i] == ' ',
        forall|i: int| 0 <= i < width - s.len() ==> #[trigger] pad_left(s, width)[i] == ' ',
{
    if s.len() >= width {
        assert(pad_right(s, width) =~= s);
        assert(pad_left(s, width) =~= s);
    }
    assert(pad_right(s, width).take(s.len() as int) =~= s);
    assert(pad_left(s, width).skip(pad_left(s, width).len() - s.len()) =~= s);
}

} // verus!
