//! Telling a model's reasoning from its answer while both stream in.

use crate::number;
use crate::number::{byte_len, front_of_bytes};
use crate::text;
use crate::text::{count, cut, find_str, without_first};
use vstd::prelude::*;

verus! {

/// Text of an answer, and text of the reasoning in it.
#[verifier::ext_equal]
pub struct Both {
    pub normal: Seq<char>,
    pub thinking: Seq<char>,
}

impl Both {
    /// Both texts, each followed by that of `b`.
    pub open spec fn and(self, b: Both) -> Both {
        Both { normal: self.normal + b.normal, thinking: self.thinking + b.thinking }
    }
}

pub open spec fn nothing() -> Both {
    Both { normal: Seq::empty(), thinking: Seq::empty() }
}

/// A text of the one sort or of the other.
pub open spec fn sorted_as(in_think: bool, s: Seq<char>) -> Both {
    if in_think {
        Both { normal: Seq::empty(), thinking: s }
    } else {
        Both { normal: s, thinking: Seq::empty() }
    }
}

/// The tag that ends what stands inside, or outside, of reasoning.
pub open spec fn tag(in_think: bool) -> Seq<char> {
    if in_think {
        "</think>"@
    } else {
        "<think>"@
    }
}

/// A whole text told apart: what stands between the tags is reasoning, what
/// stands outside is the answer. Reasoning that is not closed lasts to the
/// end.
pub open spec fn told_apart(s: Seq<char>, in_think: bool) -> Both
    decreases s.len(),
    via told_apart_ends
{
    match text::find(s, tag(in_think)) {
        Some(i) => sorted_as(in_think, s.take(i)).and(
            told_apart(s.skip(i + tag(in_think).len()), !in_think),
        ),
        None => sorted_as(in_think, s),
    }
}

#[via_fn]
proof fn told_apart_ends(s: Seq<char>, in_think: bool) {
    tag_lengths();
    text::find_is_first(s, tag(in_think));
}

proof fn tag_lengths()
    ensures
        "</think>"@.len() == 8,
        "<think>"@.len() == 7,
        number::width("</think>"@) == 8,
        number::width("<think>"@) == 7,
        forall|i: int| 0 <= i < 8 ==> number::char_width(#[trigger] "</think>"@[i]) == 1,
        forall|i: int| 0 <= i < 7 ==> number::char_width(#[trigger] "<think>"@[i]) == 1,
{
    reveal_strlit("</think>");
    reveal_strlit("<think>");
    assert(forall|i: int| 0 <= i < 8 ==> number::char_width(#[trigger] "</think>"@[i]) == 1);
    assert(forall|i: int| 0 <= i < 7 ==> number::char_width(#[trigger] "<think>"@[i]) == 1);
    narrow_width("</think>"@);
    narrow_width("<think>"@);
}

/// A text of characters of one byte is as wide as it is long.
proof fn narrow_width(s: Seq<char>)
    requires
        forall|i: int| 0 <= i < s.len() ==> number::char_width(#[trigger] s[i]) == 1,
    ensures
        number::width(s) == s.len(),
    decreases s.len(),
{
    if s.len() > 0 {
        narrow_width(s.drop_last());
    }
}

/// How many characters of a text without a tag can go out: all but the last
/// bytes that may be the start of one.
pub open spec fn free(s: Seq<char>, in_think: bool) -> nat {
    let n = number::width(s) - tag(in_think).len();
    number::fitting(
        s,
        if n > 0 {
            n
        } else {
            0
        },
    )
}

/// What a text brings out, and what is held back of it.
#[verifier::ext_equal]
pub struct Fed {
    pub out: Both,
    pub held: Seq<char>,
    pub in_think: bool,
}

/// What a text brings out, and what is held back of it.
pub open spec fn fed(s: Seq<char>, in_think: bool) -> Fed
    decreases s.len(),
    via fed_ends
{
    match text::find(s, tag(in_think)) {
        Some(i) => {
            let rest = fed(s.skip(i + tag(in_think).len()), !in_think);
            Fed { out: sorted_as(in_think, s.take(i)).and(rest.out), ..rest }
        },
        None => {
            let k = free(s, in_think) as int;
            Fed { out: sorted_as(in_think, s.take(k)), held: s.skip(k), in_think }
        },
    }
}

#[via_fn]
proof fn fed_ends(s: Seq<char>, in_think: bool) {
    tag_lengths();
    text::find_is_first(s, tag(in_think));
}

// ── The parser ───────────────────────────────────────────────────────────────

/// Splits a stream into an answer and the `<think>…</think>` blocks in it.
#[derive(Debug)]
pub struct ThinkParser {
    buf: String,
    in_think: bool,
}

impl ThinkParser {
    /// What is held back.
    pub closed spec fn held(&self) -> Seq<char> {
        self.buf@
    }

    /// Whether the stream is inside a block.
    pub closed spec fn thinking(&self) -> bool {
        self.in_think
    }

    pub fn new() -> (r: Self)
        ensures
            r.held() == Seq::<char>::empty(),
            !r.thinking(),
    {
        ThinkParser { buf: String::new(), in_think: false }
    }

    /// Takes in a chunk. Gives what of the answer and of the reasoning can go
    /// out.
    pub fn push(&mut self, chunk: &str) -> (r: (String, String))
        ensures
            ({
                let f = fed(old(self).held() + chunk@, old(self).thinking());
                &&& r.0@ == f.out.normal
                &&& r.1@ == f.out.thinking
                &&& final(self).held() == f.held
                &&& final(self).thinking() == f.in_think
            }),
    {
        self.buf.append(chunk);
        let ghost goal = fed(self.buf@, self.in_think);
        let mut normal = String::new();
        let mut thinking = String::new();
        let mut done = false;
        proof {
            tag_lengths();
        }
        assert(nothing().and(goal.out) =~= goal.out);
        while !done
            invariant
                "</think>"@.len() == 8,
                "<think>"@.len() == 7,
                !done ==> goal == (Fed {
                    out: (Both { normal: normal@, thinking: thinking@ }).and(
                        fed(self.buf@, self.in_think).out,
                    ),
                    ..fed(self.buf@, self.in_think)
                }),
                done ==> goal == (Fed {
                    out: Both { normal: normal@, thinking: thinking@ },
                    held: self.buf@,
                    in_think: self.in_think,
                }),
            decreases self.buf@.len() + (if done {
                0int
            } else {
                1
            }),
        {
            let ghost acc = Both { normal: normal@, thinking: thinking@ };
            let ghost buf = self.buf@;
            let ghost inside = self.in_think;
            let t = if self.in_think {
                "</think>"
            } else {
                "<think>"
            };
            proof {
                text::find_is_first(buf, t@);
            }
            match find_str(self.buf.as_str(), t) {
                Some(i) => {
                    let front = cut(self.buf.as_str(), 0, i);
                    assert(front@ =~= buf.take(i as int));
                    if self.in_think {
                        thinking.append(front.as_str());
                    } else {
                        normal.append(front.as_str());
                    }
                    let rest = without_first(self.buf.as_str(), i + count(t));
                    self.buf = rest;
                    self.in_think = !self.in_think;
                    assert((Both { normal: normal@, thinking: thinking@ }) =~= acc.and(
                        sorted_as(inside, buf.take(i as int)),
                    ));
                    assert(goal.out =~= (Both { normal: normal@, thinking: thinking@ }).and(
                        fed(self.buf@, self.in_think).out,
                    ));
                },
                None => {
                    let all: usize = byte_len(self.buf.as_str());
                    let keep_back: usize = count(t);
                    let front = front_of_bytes(
                        self.buf.as_str(),
                        all.saturating_sub(keep_back),
                    );
                    proof {
                        number::fitting_bound(buf, all as int - keep_back as int);
                        number::fitting_bound(buf, 0);
                    }
                    let k: usize = count(front.as_str());
                    if self.in_think {
                        thinking.append(front.as_str());
                    } else {
                        normal.append(front.as_str());
                    }
                    let rest = without_first(self.buf.as_str(), k);
                    self.buf = rest;
                    assert((Both { normal: normal@, thinking: thinking@ }) =~= acc.and(
                        sorted_as(inside, buf.take(k as int)),
                    ));
                    done = true;
                },
            }
        }
        (normal, thinking)
    }

    /// What is left when the stream ends.
    pub fn finish(self) -> (r: (String, String))
        ensures
            (Both { normal: r.0@, thinking: r.1@ }) == sorted_as(self.thinking(), self.held()),
    {
        let remainder = self.buf;
        if self.in_think {
            (String::new(), remainder)
        } else {
            (remainder, String::new())
        }
    }
}

/// The answer in a whole text, without the reasoning.
pub fn without_thinking(s: &str) -> (r: String)
    ensures
        r@ == told_apart(s@, false).normal,
{
    let mut p = ThinkParser::new();
    let (normal, _) = p.push(s);
    let ghost held = p.held();
    let ghost inside = p.thinking();
    let (rest, _) = p.finish();
    proof {
        assert(Seq::<char>::empty() + s@ =~= s@);
        push_loses_nothing(s@, false, Seq::empty());
        assert(s@ + Seq::<char>::empty() =~= s@);
        assert(held + Seq::<char>::empty() =~= held);
        held_is_plain(s@, false);
    }
    let mut out = normal;
    out.append(rest.as_str());
    out
}

// ── Laws of the stream ───────────────────────────────────────────────────────

/// Where a tag stands once more text follows a text that holds none: not
/// before what is held back.
proof fn tag_stands_in_held(s: Seq<char>, x: Seq<char>, in_think: bool)
    requires
        text::find(s, tag(in_think)) is None,
    ensures
        ({
            let k = free(s, in_think) as int;
            &&& 0 <= k <= s.len()
            &&& match text::find(s.skip(k) + x, tag(in_think)) {
                Some(i) => text::find(s + x, tag(in_think)) == Some(k + i),
                None => text::find(s + x, tag(in_think)) is None,
            }
        }),
{
    let t = tag(in_think);
    let k = free(s, in_think) as int;
    let n = number::width(s) - t.len();
    tag_lengths();
    number::fitting_bound(
        s,
        if n > 0 {
            n
        } else {
            0
        },
    );
    let b = s.skip(k);
    let whole = s + x;
    assert(whole.skip(k) =~= b + x);
    // The held part is at least as wide as the tag, or is all there is.
    assert(k == 0 || number::width(b) >= t.len()) by {
        number::width_add(s.take(k), b);
        assert(s.take(k) + b =~= s);
        if n <= 0 {
            assert(number::width(s.take(k)) <= 0);
            if k > 0 {
                wide_enough(s.take(k));
            }
        }
    }
    text::find_is_first(s, t);
    text::find_is_first(whole, t);
    text::find_is_first(b + x, t);
    // No occurrence begins before the held part.
    assert forall|p: int| 0 <= p < k implies !text::occurs_at(whole, t, p) by {
        if text::occurs_at(whole, t, p) {
            if p + t.len() <= s.len() {
                assert(text::occurs_at(s, t, p)) by {
                    assert(s.subrange(p, p + t.len()) =~= whole.subrange(p, p + t.len()));
                }
            } else {
                // All of the held part lies inside the tag, so it is narrow.
                assert forall|j: int| 0 <= j < b.len() implies number::char_width(
                    #[trigger] b[j],
                ) == 1 by {
                    assert(whole[k + j] == b[j]);
                    assert(whole.subrange(p, p + t.len())[k + j - p] == b[j]);
                    assert(t[k + j - p] == b[j]);
                }
                narrow_width(b);
            }
        }
    }
    assert forall|j: int| 0 <= j implies text::occurs_at(b + x, t, j) == text::occurs_at(
        whole,
        t,
        k + j,
    ) by {
        if j + t.len() <= (b + x).len() {
            assert((b + x).subrange(j, j + t.len()) =~= whole.subrange(k + j, k + j + t.len()));
        }
    }
    match text::find(b + x, t) {
        Some(i) => {
            assert(text::occurs_at(whole, t, k + i));
            let q = text::find(whole, t)->0;
            assert(q == k + i) by {
                if q < k + i {
                    assert(q >= k);
                    assert(text::occurs_at(b + x, t, q - k));
                }
            }
        },
        None => {
            if let Some(q) = text::find(whole, t) {
                assert(q >= k);
                assert(text::occurs_at(b + x, t, q - k));
            }
        },
    }
}

/// A text that is not empty has a width.
proof fn wide_enough(s: Seq<char>)
    requires
        s.len() > 0,
    ensures
        number::width(s) > 0,
{
}

/// Whatever follows, what went out and what is held back tell the text apart
/// as the whole would.
pub proof fn push_loses_nothing(s: Seq<char>, in_think: bool, rest: Seq<char>)
    ensures
        ({
            let f = fed(s, in_think);
            told_apart(s + rest, in_think) == f.out.and(told_apart(f.held + rest, f.in_think))
        }),
    decreases s.len(),
{
    let t = tag(in_think);
    let f = fed(s, in_think);
    tag_lengths();
    text::find_is_first(s, t);
    match text::find(s, t) {
        Some(i) => {
            text::find_is_first(s + rest, t);
            assert(text::occurs_at(s + rest, t, i)) by {
                assert((s + rest).subrange(i, i + t.len()) =~= s.subrange(i, i + t.len()));
            }
            let q = text::find(s + rest, t)->0;
            assert(q == i) by {
                if q < i {
                    assert((s + rest).subrange(q, q + t.len()) =~= s.subrange(q, q + t.len()));
                    assert(text::occurs_at(s, t, q));
                }
            }
            let after = s.skip(i + t.len());
            assert((s + rest).skip(i + t.len()) =~= after + rest);
            assert((s + rest).take(i) =~= s.take(i));
            push_loses_nothing(after, !in_think, rest);
            let g = fed(after, !in_think);
            assert(sorted_as(in_think, s.take(i)).and(
                g.out.and(told_apart(g.held + rest, g.in_think)),
            ) =~= f.out.and(told_apart(f.held + rest, f.in_think)));
        },
        None => {
            tag_stands_in_held(s, rest, in_think);
            let k = free(s, in_think) as int;
            let b = s.skip(k);
            match text::find(b + rest, t) {
                Some(i) => {
                    text::find_is_first(b + rest, t);
                    assert((s + rest).take(k + i) =~= s.take(k) + (b + rest).take(i));
                    assert((s + rest).skip(k + i + t.len()) =~= (b + rest).skip(i + t.len()));
                    assert(told_apart(s + rest, in_think) =~= f.out.and(
                        told_apart(b + rest, in_think),
                    ));
                },
                None => {
                    assert(s + rest =~= s.take(k) + (b + rest));
                    assert(told_apart(s + rest, in_think) =~= f.out.and(
                        told_apart(b + rest, in_think),
                    ));
                },
            }
        },
    }
}

/// What is held back holds no tag.
proof fn held_is_plain(s: Seq<char>, in_think: bool)
    ensures
        told_apart(fed(s, in_think).held, fed(s, in_think).in_think) == sorted_as(
            fed(s, in_think).in_think,
            fed(s, in_think).held,
        ),
    decreases s.len(),
{
    let t = tag(in_think);
    tag_lengths();
    text::find_is_first(s, t);
    match text::find(s, t) {
        Some(i) => {
            held_is_plain(s.skip(i + t.len()), !in_think);
        },
        None => {
            tag_stands_in_held(s, Seq::empty(), in_think);
            let b = s.skip(free(s, in_think) as int);
            assert(b + Seq::<char>::empty() =~= b);
            assert(s + Seq::<char>::empty() =~= s);
        },
    }
}

pub open spec fn all_of(chunks: Seq<Seq<char>>) -> Seq<char>
    decreases chunks.len(),
{
    if chunks.len() == 0 {
        Seq::empty()
    } else {
        all_of(chunks.drop_last()) + chunks.last()
    }
}

/// The parser after chunk upon chunk, with all that went out.
pub open spec fn streamed(chunks: Seq<Seq<char>>) -> Fed
    decreases chunks.len(),
{
    if chunks.len() == 0 {
        Fed { out: nothing(), held: Seq::empty(), in_think: false }
    } else {
        let before = streamed(chunks.drop_last());
        let now = fed(before.held + chunks.last(), before.in_think);
        Fed { out: before.out.and(now.out), ..now }
    }
}

/// However a stream is cut into chunks, what went out and what is left at
/// its end are the answer and the reasoning of the whole text.
pub proof fn chunks_do_not_matter(chunks: Seq<Seq<char>>)
    ensures
        ({
            let f = streamed(chunks);
            f.out.and(sorted_as(f.in_think, f.held)) == told_apart(all_of(chunks), false)
        }),
{
    let f = streamed(chunks);
    streamed_rest(chunks, Seq::empty());
    assert(all_of(chunks) + Seq::<char>::empty() =~= all_of(chunks));
    assert(f.held + Seq::<char>::empty() =~= f.held);
    if chunks.len() == 0 {
        tag_lengths();
        text::find_is_first(Seq::<char>::empty(), tag(false));
    } else {
        let before = streamed(chunks.drop_last());
        held_is_plain(before.held + chunks.last(), before.in_think);
    }
}

proof fn streamed_rest(chunks: Seq<Seq<char>>, rest: Seq<char>)
    ensures
        ({
            let f = streamed(chunks);
            told_apart(all_of(chunks) + rest, false) == f.out.and(
                told_apart(f.held + rest, f.in_think),
            )
        }),
    decreases chunks.len(),
{
    if chunks.len() == 0 {
        assert(all_of(chunks) + rest =~= rest);
        assert(Seq::<char>::empty() + rest =~= rest);
        assert(nothing().and(told_apart(rest, false)) =~= told_apart(rest, false));
    } else {
        let before = streamed(chunks.drop_last());
        let c = chunks.last();
        streamed_rest(chunks.drop_last(), c + rest);
        push_loses_nothing(before.held + c, before.in_think, rest);
        assert(all_of(chunks) + rest =~= all_of(chunks.drop_last()) + (c + rest));
        assert(before.held + (c + rest) =~= (before.held + c) + rest);
        let now = fed(before.held + c, before.in_think);
        let end = told_apart(now.held + rest, now.in_think);
        assert(before.out.and(now.out.and(end)) =~= before.out.and(now.out).and(end));
    }
}

/// A text without tags is all answer.
pub proof fn plain_is_answer(s: Seq<char>)
    requires
        !text::contains(s, "<think>"@),
    ensures
        told_apart(s, false) == (Both { normal: s, thinking: Seq::empty() }),
{
    text::find_is_first(s, "<think>"@);
}

/// What stands between the tags is thinking, and what stands around them is
/// the answer.
pub proof fn thinking_stands_between_the_tags(a: Seq<char>, b: Seq<char>, c: Seq<char>)
    requires
        !a.contains('<'),
        !b.contains('<'),
        !c.contains('<'),
    ensures
        told_apart(a + "<think>"@ + b + "</think>"@ + c, false) == (Both {
            normal: a + c,
            thinking: b,
        }),
{
    reveal_strlit("<think>");
    reveal_strlit("</think>");
    let p = "<think>"@;
    let q = "</think>"@;
    let rest = b + q + c;
    let s = a + p + b + q + c;
    assert(s =~= a + p + rest);
    text::found_behind(a, p, rest);
    assert((a + p + rest).take(a.len() as int) =~= a);
    assert((a + p + rest).skip(a.len() as int + p.len()) =~= rest);
    text::found_behind(b, q, c);
    assert((b + q + c).take(b.len() as int) =~= b);
    assert((b + q + c).skip(b.len() as int + q.len()) =~= c);
    text::found_nowhere(c, p);
    assert(told_apart(c, false) == sorted_as(false, c));
    assert(told_apart(rest, true) == sorted_as(true, b).and(sorted_as(false, c)));
    let r = told_apart(s, false);
    assert(r == sorted_as(false, a).and(sorted_as(true, b).and(sorted_as(false, c))));
    assert(r.normal =~= a + c);
    assert(r.thinking =~= b);
}

} // verus!
