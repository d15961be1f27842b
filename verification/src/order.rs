//! The order of strings, and sorting.

use crate::text::to_chars;
use vstd::prelude::*;

verus! {

/// Whether `a` comes before `b`: they are compared character by character,
/// and a string comes before those that go on from it.
pub open spec fn before(a: Seq<char>, b: Seq<char>) -> bool
    decreases a.len(),
{
    if b.len() == 0 {
        false
    } else if a.len() == 0 {
        true
    } else if a[0] == b[0] {
        before(a.skip(1), b.skip(1))
    } else {
        a[0] < b[0]
    }
}

/// Whether `a` comes before `b` or is the same.
pub open spec fn not_after(a: Seq<char>, b: Seq<char>) -> bool {
    !before(b, a)
}

/// Strings go by their first difference, and one goes before those that it
/// begins.
pub proof fn first_difference_decides(p: Seq<char>, a: Seq<char>, b: Seq<char>)
    ensures
        a.len() > 0 && b.len() > 0 && a[0] != b[0] ==> (before(p + a, p + b) <==> a[0] < b[0]),
        a.len() > 0 ==> before(p, p + a) && !before(p + a, p),
    decreases p.len(),
{
    if p.len() == 0 {
        assert(p + a =~= a);
        assert(p + b =~= b);
    } else {
        let t = p.skip(1);
        first_difference_decides(t, a, b);
        assert((p + a).skip(1) =~= t + a);
        assert((p + b).skip(1) =~= t + b);
    }
}

pub proof fn before_irreflexive(a: Seq<char>)
    ensures
        !before(a, a),
    decreases a.len(),
{
    if a.len() > 0 {
        before_irreflexive(a.skip(1));
    }
}

pub proof fn before_transitive(a: Seq<char>, b: Seq<char>, c: Seq<char>)
    requires
        before(a, b),
        before(b, c),
    ensures
        before(a, c),
    decreases a.len(),
{
    if a.len() > 0 && b.len() > 0 && c.len() > 0 && a[0] == b[0] && b[0] == c[0] {
        before_transitive(a.skip(1), b.skip(1), c.skip(1));
    }
}

/// Of two strings one comes before the other, or they are the same.
pub proof fn before_total(a: Seq<char>, b: Seq<char>)
    ensures
        before(a, b) || before(b, a) || a == b,
    decreases a.len(),
{
    if a.len() == 0 && b.len() == 0 {
        assert(a =~= b);
    } else if a.len() > 0 && b.len() > 0 && a[0] == b[0] {
        before_total(a.skip(1), b.skip(1));
        if a.skip(1) == b.skip(1) {
            assert(a =~= b) by {
                assert(a.len() == a.skip(1).len() + 1);
                assert(b.len() == b.skip(1).len() + 1);
                assert forall|i: int| 0 <= i < a.len() implies a[i] == b[i] by {
                    if i > 0 {
                        assert(a.skip(1)[i - 1] == a[i]);
                        assert(b.skip(1)[i - 1] == b[i]);
                    }
                }
            }
        }
    }
}

pub proof fn before_asymmetric(a: Seq<char>, b: Seq<char>)
    requires
        before(a, b),
    ensures
        !before(b, a),
{
    if before(b, a) {
        before_transitive(a, b, a);
        before_irreflexive(a);
    }
}

/// Whether `a` comes before `b`.
pub fn comes_before(a: &str, b: &str) -> (r: bool)
    ensures
        r == before(a@, b@),
{
    let x = to_chars(a);
    let y = to_chars(b);
    let mut i: usize = 0;
    assert(x@.skip(0) =~= a@);
    assert(y@.skip(0) =~= b@);
    loop
        invariant
            i <= x.len(),
            i <= y.len(),
            before(a@, b@) == before(x@.skip(i as int), y@.skip(i as int)),
        decreases x.len() - i,
    {
        if i == y.len() {
            return false;
        }
        if i == x.len() {
            return true;
        }
        if x[i] != y[i] {
            return x[i] < y[i];
        }
        assert(x@.skip(i as int).skip(1) =~= x@.skip(i + 1));
        assert(y@.skip(i as int).skip(1) =~= y@.skip(i + 1));
        i += 1;
    }
}

/// `x` put in its place in a sorted list: behind everything that may stand
/// before it.
pub open spec fn inserted<T>(s: Seq<T>, x: T, le: spec_fn(T, T) -> bool) -> Seq<T>
    decreases s.len(),
{
    if s.len() == 0 || le(s.last(), x) {
        s.push(x)
    } else {
        inserted(s.drop_last(), x, le).push(s.last())
    }
}

/// The list sorted; what is alike keeps its order.
pub open spec fn sorted_by<T>(s: Seq<T>, le: spec_fn(T, T) -> bool) -> Seq<T>
    decreases s.len(),
{
    if s.len() == 0 {
        s
    } else {
        inserted(sorted_by(s.drop_last(), le), s.last(), le)
    }
}

/// Whether each item may stand before all that follow it.
pub open spec fn in_order<T>(s: Seq<T>, le: spec_fn(T, T) -> bool) -> bool {
    forall|i: int, j: int| 0 <= i < j < s.len() ==> le(#[trigger] s[i], #[trigger] s[j])
}

/// A relation to sort by: of two items one may stand before the other, and
/// what may stand before an item may stand before all behind it.
pub open spec fn sorts<T>(le: spec_fn(T, T) -> bool) -> bool {
    &&& forall|a: T, b: T| #[trigger] le(a, b) || le(b, a)
    &&& forall|a: T, b: T, c: T| #[trigger] le(a, b) && #[trigger] le(b, c) ==> le(a, c)
}

proof fn inserted_keeps<T>(s: Seq<T>, x: T, le: spec_fn(T, T) -> bool)
    ensures
        inserted(s, x, le).to_multiset() == s.to_multiset().insert(x),
        inserted(s, x, le).len() == s.len() + 1,
    decreases s.len(),
{
    broadcast use vstd::seq_lib::group_to_multiset_ensures;

    if s.len() == 0 || le(s.last(), x) {
    } else {
        inserted_keeps(s.drop_last(), x, le);
        assert(s =~= s.drop_last().push(s.last()));
        assert(s.to_multiset() =~= s.drop_last().to_multiset().insert(s.last()));
        assert(inserted(s, x, le).to_multiset() =~= s.to_multiset().insert(x));
    }
}

proof fn inserted_in_order<T>(s: Seq<T>, x: T, le: spec_fn(T, T) -> bool)
    requires
        sorts(le),
        in_order(s, le),
    ensures
        in_order(inserted(s, x, le), le),
        forall|i: int|
            0 <= i < inserted(s, x, le).len() ==> #[trigger] inserted(s, x, le)[i] == x
                || s.contains(inserted(s, x, le)[i]),
        inserted(s, x, le).len() == s.len() + 1,
    decreases s.len(),
{
    if s.len() == 0 {
        assert(inserted(s, x, le) =~= seq![x]);
    } else if le(s.last(), x) {
        let r = s.push(x);
        assert forall|i: int, j: int| 0 <= i < j < r.len() implies le(#[trigger] r[i], #[trigger] r[j]) by {
            if j == s.len() && i < s.len() - 1 {
                assert(le(s[i], s.last()));
            }
        }
        assert forall|i: int| 0 <= i < r.len() implies #[trigger] r[i] == x || s.contains(r[i]) by {
            if i < s.len() {
                assert(s[i] == r[i]);
            }
        }
    } else {
        let t = s.drop_last();
        inserted_in_order(t, x, le);
        let m = inserted(t, x, le);
        let r = m.push(s.last());
        assert forall|i: int, j: int| 0 <= i < j < r.len() implies le(#[trigger] r[i], #[trigger] r[j]) by {
            if j == m.len() {
                assert(m[i] == x || t.contains(m[i]));
                if m[i] != x {
                    let k = choose|k: int| 0 <= k < t.len() && t[k] == m[i];
                    assert(s[k] == t[k]);
                    assert(le(s[k], s[s.len() - 1]));
                } else {
                    assert(le(s.last(), x) || le(x, s.last()));
                }
            }
        }
        assert forall|i: int| 0 <= i < r.len() implies #[trigger] r[i] == x || s.contains(r[i]) by {
            if i < m.len() {
                assert(m[i] == x || t.contains(m[i]));
                if m[i] != x {
                    let k = choose|k: int| 0 <= k < t.len() && t[k] == m[i];
                    assert(s[k] == t[k]);
                }
            } else {
                assert(s[s.len() - 1] == r[i]);
            }
        }
    }
}

/// A sorted list holds what the list held, each thing as often, and is in
/// order.
pub proof fn sorted_is_sorted<T>(s: Seq<T>, le: spec_fn(T, T) -> bool)
    ensures
        sorted_by(s, le).to_multiset() == s.to_multiset(),
        sorted_by(s, le).len() == s.len(),
        sorts(le) ==> in_order(sorted_by(s, le), le),
    decreases s.len(),
{
    broadcast use vstd::seq_lib::group_to_multiset_ensures;

    if s.len() > 0 {
        sorted_is_sorted(s.drop_last(), le);
        inserted_keeps(sorted_by(s.drop_last(), le), s.last(), le);
        assert(s =~= s.drop_last().push(s.last()));
        if sorts(le) {
            inserted_in_order(sorted_by(s.drop_last(), le), s.last(), le);
        }
    }
}

/// Sorting changes nothing in a list that is in order.
pub proof fn sorting_again<T>(s: Seq<T>, le: spec_fn(T, T) -> bool)
    requires
        in_order(s, le),
    ensures
        sorted_by(s, le) == s,
    decreases s.len(),
{
    if s.len() > 0 {
        let t = s.drop_last();
        assert(in_order(t, le)) by {
            assert forall|i: int, j: int| 0 <= i < j < t.len() implies le(#[trigger] t[i], #[trigger] t[j]) by {
                assert(le(s[i], s[j]));
            }
        }
        sorting_again(t, le);
        if t.len() > 0 {
            assert(le(s[t.len() - 1], s[s.len() - 1]));
        }
        assert(t.push(s.last()) =~= s);
    }
}

proof fn inserted_at<T>(s: Seq<T>, x: T, le: spec_fn(T, T) -> bool, j: int)
    requires
        0 <= j <= s.len(),
        j > 0 ==> le(s[j - 1], x),
        forall|k: int| j <= k < s.len() ==> !le(#[trigger] s[k], x),
    ensures
        inserted(s, x, le) == s.take(j).push(x) + s.skip(j),
    decreases s.len(),
{
    if j == s.len() {
        assert(s.take(j) =~= s);
        assert(s.take(j).push(x) + s.skip(j) =~= s.push(x));
        if s.len() == 0 {
        }
    } else {
        assert(!le(s[s.len() - 1], x));
        inserted_at(s.drop_last(), x, le, j);
        assert(s.drop_last().take(j) =~= s.take(j));
        assert((s.drop_last().take(j).push(x) + s.drop_last().skip(j)).push(s.last()) =~= s.take(
            j,
        ).push(x) + s.skip(j));
    }
}

/// Sorts `v`; what is alike keeps its order.
pub fn sort_by<T, F: Fn(&T, &T) -> bool>(
    v: &mut Vec<T>,
    le: F,
    Ghost(rel): Ghost<spec_fn(T, T) -> bool>,
)
    requires
        forall|a: &T, b: &T| #[trigger] le.requires((a, b)),
        forall|a: &T, b: &T, r: bool| #[trigger] le.ensures((a, b), r) ==> r == rel(*a, *b),
    ensures
        final(v)@ == sorted_by(old(v)@, rel),
{
    let ghost all = v@;
    let mut i: usize = 0;
    assert(v@.take(0) =~= Seq::<T>::empty());
    assert(all.take(0) =~= Seq::<T>::empty());
    while i < v.len()
        invariant
            i <= v.len(),
            v.len() == all.len(),
            v@.take(i as int) == sorted_by(all.take(i as int), rel),
            v@.skip(i as int) == all.skip(i as int),
            forall|a: &T, b: &T| #[trigger] le.requires((a, b)),
            forall|a: &T, b: &T, r: bool| #[trigger] le.ensures((a, b), r) ==> r == rel(*a, *b),
        decreases v.len() - i,
    {
        let ghost head = v@.take(i as int);
        let ghost x = v@[i as int];
        let ghost whole = v@;
        assert(x == v@.skip(i as int)[0]);
        assert(x == all.skip(i as int)[0]);
        let mut j: usize = i;
        while j > 0 && !le(&v[j - 1], &v[i])
            invariant
                j <= i < v.len(),
                v@ == whole,
                x == v@[i as int],
                forall|k: int| j <= k < i ==> !rel(#[trigger] v@[k], x),
                forall|a: &T, b: &T| #[trigger] le.requires((a, b)),
                forall|a: &T, b: &T, r: bool| #[trigger] le.ensures((a, b), r) ==> r == rel(*a, *b),
            ensures
                j <= i,
                j > 0 ==> rel(v@[j - 1], x),
                forall|k: int| j <= k < i ==> !rel(#[trigger] v@[k], x),
            decreases j,
        {
            j -= 1;
        }
        proof {
            assert forall|k: int| j <= k < head.len() implies !rel(#[trigger] head[k], x) by {
                assert(v@[k] == head[k]);
            }
            inserted_at(head, x, rel, j as int);
            assert(all.take(i + 1).drop_last() =~= all.take(i as int));
            assert(all.take(i + 1).last() == x);
        }
        if j < i {
            let item = v.remove(i);
            v.insert(j, item);
        }
        proof {
            assert(v@.take(i + 1) =~= head.take(j as int).push(x) + head.skip(j as int));
            assert forall|k: int| i + 1 <= k < v@.len() implies v@[k] == all[k] by {
                assert(whole.skip(i as int)[k - i] == all.skip(i as int)[k - i]);
            }
            assert(v@.skip(i + 1) =~= all.skip(i + 1));
        }
        i += 1;
    }
    assert(v@.take(i as int) =~= v@);
    assert(all.take(i as int) =~= all);
}

/// The order of strings, as a relation to sort by.
pub open spec fn by_text() -> spec_fn(String, String) -> bool {
    |a: String, b: String| not_after(a@, b@)
}

pub proof fn by_text_sorts()
    ensures
        sorts(by_text()),
{
    let le = by_text();
    assert forall|a: String, b: String| #[trigger] le(a, b) || le(b, a) by {
        if before(b@, a@) && before(a@, b@) {
            before_asymmetric(a@, b@);
        }
    }
    assert forall|a: String, b: String, c: String| #[trigger] le(a, b) && #[trigger] le(b, c) implies le(
        a,
        c,
    ) by {
        if before(c@, a@) {
            before_total(a@, b@);
            before_total(b@, c@);
            if before(a@, b@) {
                before_transitive(c@, a@, b@);
            }
        }
    }
}

/// Sorts strings.
pub fn sort_texts(v: &mut Vec<String>)
    ensures
        final(v)@ == sorted_by(old(v)@, by_text()),
{
    let le = |a: &String, b: &String| -> (r: bool)
        ensures r == not_after(a@, b@)
    {
        !comes_before(b.as_str(), a.as_str())
    };
    sort_by(v, le, Ghost(by_text()));
}


/// Whether two relations agree, through `f`, on the items that `p` holds of.
pub open spec fn agree<T, U>(
    p: spec_fn(T) -> bool,
    f: spec_fn(T) -> U,
    le: spec_fn(T, T) -> bool,
    le2: spec_fn(U, U) -> bool,
) -> bool {
    forall|a: T, b: T| p(a) && p(b) ==> #[trigger] le(a, b) == le2(f(a), f(b))
}

proof fn inserted_map<T, U>(
    s: Seq<T>,
    x: T,
    p: spec_fn(T) -> bool,
    f: spec_fn(T) -> U,
    le: spec_fn(T, T) -> bool,
    le2: spec_fn(U, U) -> bool,
)
    requires
        agree(p, f, le, le2),
        p(x),
        forall|i: int| 0 <= i < s.len() ==> p(#[trigger] s[i]),
    ensures
        inserted(s, x, le).map_values(f) == inserted(s.map_values(f), f(x), le2),
        forall|i: int| 0 <= i < inserted(s, x, le).len() ==> p(#[trigger] inserted(s, x, le)[i]),
    decreases s.len(),
{
    let m = s.map_values(f);
    if s.len() == 0 {
        assert(s.push(x).map_values(f) =~= m.push(f(x)));
    } else {
        assert(le(s.last(), x) == le2(f(s.last()), f(x)));
        assert(m.last() == f(s.last()));
        if le(s.last(), x) {
            assert(s.push(x).map_values(f) =~= m.push(f(x)));
        } else {
            let t = s.drop_last();
            assert forall|i: int| 0 <= i < t.len() implies p(#[trigger] t[i]) by {
                assert(s[i] == t[i]);
            }
            inserted_map(t, x, p, f, le, le2);
            assert(t.map_values(f) =~= m.drop_last());
            assert(inserted(t, x, le).push(s.last()).map_values(f) =~= inserted(
                t,
                x,
                le,
            ).map_values(f).push(f(s.last())));
        }
    }
}

/// Sorting and then mapping is mapping and then sorting, where the two
/// orders agree.
pub proof fn sorted_map<T, U>(
    s: Seq<T>,
    p: spec_fn(T) -> bool,
    f: spec_fn(T) -> U,
    le: spec_fn(T, T) -> bool,
    le2: spec_fn(U, U) -> bool,
)
    requires
        agree(p, f, le, le2),
        forall|i: int| 0 <= i < s.len() ==> p(#[trigger] s[i]),
    ensures
        sorted_by(s, le).map_values(f) == sorted_by(s.map_values(f), le2),
        forall|i: int| 0 <= i < sorted_by(s, le).len() ==> p(#[trigger] sorted_by(s, le)[i]),
    decreases s.len(),
{
    if s.len() == 0 {
        assert(s.map_values(f) =~= Seq::<U>::empty());
        assert(sorted_by(s, le).map_values(f) =~= Seq::<U>::empty());
    } else {
        let t = s.drop_last();
        assert forall|i: int| 0 <= i < t.len() implies p(#[trigger] t[i]) by {
            assert(s[i] == t[i]);
        }
        sorted_map(t, p, f, le, le2);
        assert(p(s[s.len() - 1]));
        inserted_map(sorted_by(t, le), s.last(), p, f, le, le2);
        assert(s.map_values(f).drop_last() =~= t.map_values(f));
        assert(s.map_values(f).last() == f(s.last()));
    }
}

/// The order of strings over their characters.
pub open spec fn by_chars() -> spec_fn(Seq<char>, Seq<char>) -> bool {
    |a: Seq<char>, b: Seq<char>| not_after(a, b)
}

/// What sorting strings does to their contents.
pub proof fn sorted_texts(v: Seq<String>)
    ensures
        crate::text::views(sorted_by(v, by_text())) == sorted_by(crate::text::views(v), by_chars()),
{
    let f = |s: String| s@;
    let p = |s: String| true;
    sorted_map(v, p, f, by_text(), by_chars());
    assert(v.map_values(f) =~= crate::text::views(v));
    assert(sorted_by(v, by_text()).map_values(f) =~= crate::text::views(sorted_by(v, by_text())));
}

pub proof fn by_chars_sorts()
    ensures
        sorts(by_chars()),
{
    let le = by_chars();
    assert forall|a: Seq<char>, b: Seq<char>| #[trigger] le(a, b) || le(b, a) by {
        if before(b, a) && before(a, b) {
            before_asymmetric(a, b);
        }
    }
    assert forall|a: Seq<char>, b: Seq<char>, c: Seq<char>| #[trigger] le(a, b) && #[trigger] le(b, c) implies le(
        a,
        c,
    ) by {
        if before(c, a) {
            before_total(a, b);
            before_total(b, c);
            if before(a, b) {
                before_transitive(c, a, b);
            }
        }
    }
}

/// Sorting neither loses nor doubles anything.
pub proof fn sorted_same_items<T>(s: Seq<T>, le: spec_fn(T, T) -> bool)
    ensures
        forall|x: T| sorted_by(s, le).contains(x) == #[trigger] s.contains(x),
        s.no_duplicates() ==> sorted_by(s, le).no_duplicates(),
{
    broadcast use vstd::seq_lib::group_to_multiset_ensures;

    sorted_is_sorted(s, le);
    let r = sorted_by(s, le);
    assert forall|x: T| r.contains(x) == #[trigger] s.contains(x) by {
        assert(r.contains(x) <==> r.to_multiset().count(x) > 0);
        assert(s.contains(x) <==> s.to_multiset().count(x) > 0);
    }
    if s.no_duplicates() {
        s.lemma_multiset_has_no_duplicates();
        r.lemma_multiset_has_no_duplicates_conv();
    }
}

proof fn inserted_behind_its_like<T>(s: Seq<T>, x: T, e: T, le: spec_fn(T, T) -> bool)
    requires
        sorts(le),
    ensures
        inserted(s, x, le).filter(|y: T| le(e, y) && le(y, e)) == (if le(e, x) && le(x, e) {
            s.filter(|y: T| le(e, y) && le(y, e)).push(x)
        } else {
            s.filter(|y: T| le(e, y) && le(y, e))
        }),
    decreases s.len(),
{
    reveal(Seq::filter);
    let like = |y: T| le(e, y) && le(y, e);
    if s.len() == 0 || le(s.last(), x) {
        assert(inserted(s, x, le) == s.push(x));
        assert(s.push(x).drop_last() =~= s);
    } else {
        let t = s.drop_last();
        inserted_behind_its_like(t, x, e, le);
        let m = inserted(t, x, le);
        assert(m.push(s.last()).drop_last() =~= m);
        if like(x) && like(s.last()) {
            assert(le(s.last(), e) && le(e, x));
            assert(le(s.last(), x));
        }
    }
}

/// Items that stand alike in the order keep their own order.
pub proof fn alike_keep_their_order<T>(s: Seq<T>, e: T, le: spec_fn(T, T) -> bool)
    requires
        sorts(le),
    ensures
        sorted_by(s, le).filter(|y: T| le(e, y) && le(y, e)) == s.filter(
            |y: T| le(e, y) && le(y, e),
        ),
    decreases s.len(),
{
    reveal(Seq::filter);
    if s.len() > 0 {
        alike_keep_their_order(s.drop_last(), e, le);
        inserted_behind_its_like(sorted_by(s.drop_last(), le), s.last(), e, le);
    }
}

} // verus!
