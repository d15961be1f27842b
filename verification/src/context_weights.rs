//! How useful files have been as context.

use crate::names::NameMap;
use crate::text;
use crate::text::listed;
use vstd::prelude::*;

verus! {

pub const WEIGHTS_PATH: &'static str = ".parecode/context_weights.json";

/// Weights count in twentieths: 0.2, 3.0, 1.0, 0.1 and 0.05.
pub const WEIGHT_MIN: i64 = 4;

pub const WEIGHT_MAX: i64 = 60;

pub const WEIGHT_DEFAULT: i64 = 20;

pub const WEIGHT_USEFUL: i64 = 2;

pub const WEIGHT_WASTED: i64 = 1;

/// The weights of files, in twentieths.
#[derive(Debug)]
pub struct ContextWeights {
    pub file_weights: NameMap<i64>,
}

/// The weight of a file.
pub open spec fn weight(m: Map<Seq<char>, i64>, file: Seq<char>) -> i64 {
    if m.dom().contains(file) {
        m[file]
    } else {
        WEIGHT_DEFAULT
    }
}

/// `w`, or the nearer end of the range.
pub open spec fn clamped(w: int) -> i64 {
    if w <= WEIGHT_MIN {
        WEIGHT_MIN
    } else if w >= WEIGHT_MAX {
        WEIGHT_MAX
    } else {
        w as i64
    }
}

pub open spec fn up(w: i64) -> i64 {
    clamped(w + WEIGHT_USEFUL)
}

pub open spec fn down(w: i64) -> i64 {
    clamped(w - WEIGHT_WASTED)
}

/// The weights once the files have proved useful.
pub open spec fn raised(m: Map<Seq<char>, i64>, files: Seq<Seq<char>>) -> Map<Seq<char>, i64>
    decreases files.len(),
{
    if files.len() == 0 {
        m
    } else {
        let before = raised(m, files.drop_last());
        before.insert(files.last(), up(weight(before, files.last())))
    }
}

/// The weights once those of the files that are not useful have proved
/// wasted.
pub open spec fn lowered(
    m: Map<Seq<char>, i64>,
    files: Seq<Seq<char>>,
    useful: Seq<Seq<char>>,
) -> Map<Seq<char>, i64>
    decreases files.len(),
{
    if files.len() == 0 {
        m
    } else {
        let before = lowered(m, files.drop_last(), useful);
        if useful.contains(files.last()) {
            before
        } else {
            before.insert(files.last(), down(weight(before, files.last())))
        }
    }
}

pub open spec fn adjusted(
    m: Map<Seq<char>, i64>,
    modified: Seq<Seq<char>>,
    context: Seq<Seq<char>>,
) -> Map<Seq<char>, i64> {
    lowered(raised(m, modified), context, modified)
}

pub open spec fn weight_sum(m: Map<Seq<char>, i64>, files: Seq<Seq<char>>) -> int
    decreases files.len(),
{
    if files.len() == 0 {
        0
    } else {
        weight_sum(m, files.drop_last()) + weight(m, files.last())
    }
}

/// The mean weight of files, as a quotient: their sum, and how many they
/// are; the default once, where there are none.
pub open spec fn mean(m: Map<Seq<char>, i64>, files: Seq<Seq<char>>) -> (int, int) {
    if files.len() == 0 {
        (WEIGHT_DEFAULT as int, 1)
    } else {
        (weight_sum(m, files), files.len() as int)
    }
}

/// Whether the quotient `a` is at least the quotient `b`.
pub open spec fn not_lighter(a: (int, int), b: (int, int)) -> bool {
    a.0 * b.1 >= b.0 * a.1
}

proof fn sum_in_range(m: Map<Seq<char>, i64>, files: Seq<Seq<char>>)
    ensures
        -0x8000_0000_0000_0000 * files.len() <= weight_sum(m, files) <= 0x7fff_ffff_ffff_ffff
            * files.len(),
    decreases files.len(),
{
    if files.len() > 0 {
        sum_in_range(m, files.drop_last());
    }
}

/// A quotient of weights moved up until it cannot be negative.
fn moved_up(sum: i128, n: usize) -> (r: u128)
    requires
        n > 0,
        -0x8000_0000_0000_0000 * n <= sum <= 0x7fff_ffff_ffff_ffff * n,
    ensures
        r == sum + 0x8000_0000_0000_0000 * n,
{
    let base: u128 = 0x8000_0000_0000_0000u128 * (n as u128);
    if sum >= 0 {
        base + sum as u128
    } else {
        base - (-sum) as u128
    }
}

proof fn quotients_compare(
    a: (int, int),
    b: (int, int),
    sa: int,
    sb: int,
    qa: int,
    qb: int,
    ra: int,
    rb: int,
)
    requires
        a.1 > 0,
        b.1 > 0,
        sa == a.0 + 0x8000_0000_0000_0000 * a.1,
        sb == b.0 + 0x8000_0000_0000_0000 * b.1,
        sa == qa * a.1 + ra,
        sb == qb * b.1 + rb,
        0 <= ra < a.1,
        0 <= rb < b.1,
    ensures
        not_lighter(a, b) == (qa > qb || (qa == qb && ra * b.1 >= rb * a.1)),
{
    let (na, nb) = (a.1, b.1);
    assert(a.0 * nb - b.0 * na == (qa - qb) * (na * nb) + (ra * nb - rb * na)) by (nonlinear_arith)
        requires
            qa * na + ra == a.0 + 0x8000_0000_0000_0000 * na,
            qb * nb + rb == b.0 + 0x8000_0000_0000_0000 * nb,
    ;
    assert(0 <= ra * nb < na * nb) by (nonlinear_arith)
        requires
            0 <= ra < na,
            nb > 0,
    ;
    assert(0 <= rb * na < na * nb) by (nonlinear_arith)
        requires
            0 <= rb < nb,
            na > 0,
    ;
    if qa > qb {
        assert((qa - qb) * (na * nb) >= na * nb) by (nonlinear_arith)
            requires
                qa - qb >= 1,
                na * nb > 0,
        ;
    } else if qa < qb {
        assert((qa - qb) * (na * nb) <= -(na * nb)) by (nonlinear_arith)
            requires
                qa - qb <= -1,
                na * nb > 0,
        ;
    } else {
        assert((qa - qb) * (na * nb) == 0) by (nonlinear_arith)
            requires
                qa - qb == 0,
        ;
    }
}

impl Default for ContextWeights {
    fn default() -> (r: Self)
        ensures
            r.file_weights@ == Map::<Seq<char>, i64>::empty(),
    {
        ContextWeights { file_weights: NameMap::new() }
    }
}

impl ContextWeights {
    /// The weight of a file.
    pub fn _get(&self, file: &str) -> (w: i64)
        ensures
            w == weight(self.file_weights@, file@),
    {
        match self.file_weights.get(file) {
            Some(w) => *w,
            None => WEIGHT_DEFAULT,
        }
    }

    /// Takes note of a task: the files it changed were useful, the others of
    /// its context were not.
    pub fn adjust(&mut self, files_modified: &Vec<String>, files_in_context: &Vec<String>)
        ensures
            final(self).file_weights@ == adjusted(
                old(self).file_weights@,
                text::views(files_modified@),
                text::views(files_in_context@),
            ),
    {
        let ghost m = self.file_weights@;
        let ghost mv = text::views(files_modified@);
        let ghost cv = text::views(files_in_context@);
        let mut i: usize = 0;
        assert(mv.take(0) =~= Seq::<Seq<char>>::empty());
        while i < files_modified.len()
            invariant
                i <= files_modified.len(),
                mv == text::views(files_modified@),
                self.file_weights@ == raised(m, mv.take(i as int)),
            decreases files_modified.len() - i,
        {
            assert(mv.take(i + 1).drop_last() =~= mv.take(i as int));
            assert(mv.take(i + 1).last() == files_modified@[i as int]@);
            let w: i64 = self._get(files_modified[i].as_str());
            let new: i64 = if w >= WEIGHT_MAX - WEIGHT_USEFUL {
                WEIGHT_MAX
            } else if w <= WEIGHT_MIN - WEIGHT_USEFUL {
                WEIGHT_MIN
            } else {
                w + WEIGHT_USEFUL
            };
            self.file_weights.insert(files_modified[i].clone(), new);
            i += 1;
        }
        assert(mv.take(i as int) =~= mv);
        let ghost high = self.file_weights@;
        let mut j: usize = 0;
        assert(cv.take(0) =~= Seq::<Seq<char>>::empty());
        while j < files_in_context.len()
            invariant
                j <= files_in_context.len(),
                mv == text::views(files_modified@),
                cv == text::views(files_in_context@),
                self.file_weights@ == lowered(high, cv.take(j as int), mv),
            decreases files_in_context.len() - j,
        {
            assert(cv.take(j + 1).drop_last() =~= cv.take(j as int));
            assert(cv.take(j + 1).last() == files_in_context@[j as int]@);
            if !listed(files_in_context[j].as_str(), files_modified) {
                let w: i64 = self._get(files_in_context[j].as_str());
                let new: i64 = if w <= WEIGHT_MIN + WEIGHT_WASTED {
                    WEIGHT_MIN
                } else if w >= WEIGHT_MAX + WEIGHT_WASTED {
                    WEIGHT_MAX
                } else {
                    w - WEIGHT_WASTED
                };
                self.file_weights.insert(files_in_context[j].clone(), new);
            }
            j += 1;
        }
        assert(cv.take(j as int) =~= cv);
    }

    /// Whether files weigh at least as much as others, in the mean.
    pub fn weigh_as_much(&self, files: &Vec<String>, others: &Vec<String>) -> (r: bool)
        ensures
            r == not_lighter(
                mean(self.file_weights@, text::views(files@)),
                mean(self.file_weights@, text::views(others@)),
            ),
    {
        let a = self._mean_weight(files);
        let b = self._mean_weight(others);
        proof {
            sum_in_range(self.file_weights@, text::views(files@));
            sum_in_range(self.file_weights@, text::views(others@));
        }
        let sa: u128 = moved_up(a.0, a.1);
        let sb: u128 = moved_up(b.0, b.1);
        let na: u128 = a.1 as u128;
        let nb: u128 = b.1 as u128;
        let qa: u128 = sa / na;
        let qb: u128 = sb / nb;
        let ra: u128 = sa % na;
        let rb: u128 = sb % nb;
        proof {
            vstd::arithmetic::div_mod::lemma_fundamental_div_mod(sa as int, na as int);
            vstd::arithmetic::div_mod::lemma_fundamental_div_mod(sb as int, nb as int);
            assert(na * qa == qa * na) by (nonlinear_arith);
            assert(nb * qb == qb * nb) by (nonlinear_arith);
            quotients_compare(
                (a.0 as int, a.1 as int),
                (b.0 as int, b.1 as int),
                sa as int,
                sb as int,
                qa as int,
                qb as int,
                ra as int,
                rb as int,
            );
            assert(ra * nb <= 0xffff_ffff_ffff_ffff_ffff_ffff_ffff_ffff) by (nonlinear_arith)
                requires
                    0 <= ra < na,
                    na <= 0xffff_ffff_ffff_ffff,
                    0 <= nb <= 0xffff_ffff_ffff_ffff,
            ;
            assert(rb * na <= 0xffff_ffff_ffff_ffff_ffff_ffff_ffff_ffff) by (nonlinear_arith)
                requires
                    0 <= rb < nb,
                    nb <= 0xffff_ffff_ffff_ffff,
                    0 <= na <= 0xffff_ffff_ffff_ffff,
            ;
        }
        qa > qb || (qa == qb && ra * nb >= rb * na)
    }

    /// The weights of the files together, and how many they are; the default
    /// once, where there are none. Their quotient is the mean.
    pub fn _mean_weight(&self, files: &Vec<String>) -> (r: (i128, usize))
        ensures
            (r.0 as int, r.1 as int) == mean(self.file_weights@, text::views(files@)),
    {
        if files.len() == 0 {
            return (WEIGHT_DEFAULT as i128, 1);
        }
        let ghost fv = text::views(files@);
        let mut sum: i128 = 0;
        let mut i: usize = 0;
        assert(fv.take(0) =~= Seq::<Seq<char>>::empty());
        while i < files.len()
            invariant
                i <= files.len(),
                fv == text::views(files@),
                sum == weight_sum(self.file_weights@, fv.take(i as int)),
                -(i as int) * 0x8000_0000_0000_0000 <= sum <= (i as int) * 0x8000_0000_0000_0000,
            decreases files.len() - i,
        {
            assert(fv.take(i + 1).drop_last() =~= fv.take(i as int));
            assert(fv.take(i + 1).last() == files@[i as int]@);
            sum = sum + self._get(files[i].as_str()) as i128;
            i += 1;
        }
        assert(fv.take(i as int) =~= fv);
        (sum, files.len())
    }
}

// ── Laws of the weights ──────────────────────────────────────────────────────

pub open spec fn in_range(m: Map<Seq<char>, i64>) -> bool {
    forall|f: Seq<char>| #[trigger] m.dom().contains(f) ==> WEIGHT_MIN <= m[f] <= WEIGHT_MAX
}

/// Weights within their range stay within it.
pub proof fn weights_stay_in_range(
    m: Map<Seq<char>, i64>,
    modified: Seq<Seq<char>>,
    context: Seq<Seq<char>>,
)
    requires
        in_range(m),
    ensures
        in_range(adjusted(m, modified, context)),
{
    raised_in_range(m, modified);
    lowered_in_range(raised(m, modified), context, modified);
}

proof fn raised_in_range(m: Map<Seq<char>, i64>, files: Seq<Seq<char>>)
    requires
        in_range(m),
    ensures
        in_range(raised(m, files)),
    decreases files.len(),
{
    if files.len() > 0 {
        raised_in_range(m, files.drop_last());
    }
}

proof fn lowered_in_range(
    m: Map<Seq<char>, i64>,
    files: Seq<Seq<char>>,
    useful: Seq<Seq<char>>,
)
    requires
        in_range(m),
    ensures
        in_range(lowered(m, files, useful)),
    decreases files.len(),
{
    if files.len() > 0 {
        lowered_in_range(m, files.drop_last(), useful);
    }
}

/// The weight of a file that was changed or shown lies in the range,
/// whatever it was before.
pub proof fn touched_is_in_range(
    m: Map<Seq<char>, i64>,
    modified: Seq<Seq<char>>,
    context: Seq<Seq<char>>,
    file: Seq<char>,
)
    requires
        modified.contains(file) || context.contains(file),
    ensures
        WEIGHT_MIN <= weight(adjusted(m, modified, context), file) <= WEIGHT_MAX,
{
    if modified.contains(file) {
        raised_touches(m, modified, file);
        lowered_keeps_useful(raised(m, modified), context, modified, file);
    } else {
        lowered_touches(raised(m, modified), context, modified, file);
    }
}

proof fn raised_touches(m: Map<Seq<char>, i64>, files: Seq<Seq<char>>, file: Seq<char>)
    requires
        files.contains(file),
    ensures
        WEIGHT_MIN <= weight(raised(m, files), file) <= WEIGHT_MAX,
    decreases files.len(),
{
    if files.last() != file {
        let i = files.index_of(file);
        assert(files.drop_last()[i] == file);
        raised_touches(m, files.drop_last(), file);
    }
}

proof fn lowered_touches(
    m: Map<Seq<char>, i64>,
    files: Seq<Seq<char>>,
    useful: Seq<Seq<char>>,
    file: Seq<char>,
)
    requires
        files.contains(file),
        !useful.contains(file),
    ensures
        WEIGHT_MIN <= weight(lowered(m, files, useful), file) <= WEIGHT_MAX,
    decreases files.len(),
{
    if files.last() != file {
        let i = files.index_of(file);
        assert(files.drop_last()[i] == file);
        lowered_touches(m, files.drop_last(), useful, file);
    }
}

/// A file that no task touched keeps its weight.
pub proof fn untouched_keeps_weight(
    m: Map<Seq<char>, i64>,
    modified: Seq<Seq<char>>,
    context: Seq<Seq<char>>,
    file: Seq<char>,
)
    requires
        !modified.contains(file),
        !context.contains(file),
    ensures
        weight(adjusted(m, modified, context), file) == weight(m, file),
{
    raised_others(m, modified, file);
    lowered_others(raised(m, modified), context, modified, file);
}

proof fn raised_others(m: Map<Seq<char>, i64>, files: Seq<Seq<char>>, file: Seq<char>)
    requires
        !files.contains(file),
    ensures
        weight(raised(m, files), file) == weight(m, file),
    decreases files.len(),
{
    if files.len() > 0 {
        assert(files[files.len() - 1] != file);
        assert(!files.drop_last().contains(file)) by {
            if files.drop_last().contains(file) {
                let i = files.drop_last().index_of(file);
                assert(files[i] == file);
            }
        }
        raised_others(m, files.drop_last(), file);
    }
}

proof fn lowered_others(
    m: Map<Seq<char>, i64>,
    files: Seq<Seq<char>>,
    useful: Seq<Seq<char>>,
    file: Seq<char>,
)
    requires
        !files.contains(file),
    ensures
        weight(lowered(m, files, useful), file) == weight(m, file),
    decreases files.len(),
{
    if files.len() > 0 {
        assert(files[files.len() - 1] != file);
        assert(!files.drop_last().contains(file)) by {
            if files.drop_last().contains(file) {
                let i = files.drop_last().index_of(file);
                assert(files[i] == file);
            }
        }
        lowered_others(m, files.drop_last(), useful, file);
    }
}

/// A changed file gains weight, up to the end of the range.
pub proof fn useful_gains(
    m: Map<Seq<char>, i64>,
    modified: Seq<Seq<char>>,
    context: Seq<Seq<char>>,
    file: Seq<char>,
)
    requires
        modified.contains(file),
        weight(m, file) <= WEIGHT_MAX,
    ensures
        up(weight(m, file)) <= weight(adjusted(m, modified, context), file) <= WEIGHT_MAX,
        weight(m, file) < WEIGHT_MAX ==> weight(m, file) < up(weight(m, file)),
{
    raised_gains(m, modified, file);
    lowered_keeps_useful(raised(m, modified), context, modified, file);
}

proof fn raised_gains(m: Map<Seq<char>, i64>, files: Seq<Seq<char>>, file: Seq<char>)
    requires
        weight(m, file) <= WEIGHT_MAX,
    ensures
        weight(m, file) <= weight(raised(m, files), file) <= WEIGHT_MAX,
        files.contains(file) ==> up(weight(m, file)) <= weight(raised(m, files), file),
    decreases files.len(),
{
    if files.len() > 0 {
        raised_gains(m, files.drop_last(), file);
        if files.contains(file) && files.last() != file {
            let i = files.index_of(file);
            assert(files.drop_last()[i] == file);
        }
    }
}

/// A file that was shown and not changed loses weight, down to the end of the
/// range.
pub proof fn wasted_loses(
    m: Map<Seq<char>, i64>,
    modified: Seq<Seq<char>>,
    context: Seq<Seq<char>>,
    file: Seq<char>,
)
    requires
        !modified.contains(file),
        context.contains(file),
        weight(m, file) >= WEIGHT_MIN,
    ensures
        WEIGHT_MIN <= weight(adjusted(m, modified, context), file) <= down(weight(m, file)),
        weight(m, file) > WEIGHT_MIN ==> down(weight(m, file)) < weight(m, file),
{
    raised_others(m, modified, file);
    lowered_loses(raised(m, modified), context, modified, file);
}

proof fn lowered_loses(
    m: Map<Seq<char>, i64>,
    files: Seq<Seq<char>>,
    useful: Seq<Seq<char>>,
    file: Seq<char>,
)
    requires
        !useful.contains(file),
        weight(m, file) >= WEIGHT_MIN,
    ensures
        WEIGHT_MIN <= weight(lowered(m, files, useful), file) <= weight(m, file),
        files.contains(file) ==> weight(lowered(m, files, useful), file) <= down(weight(m, file)),
    decreases files.len(),
{
    if files.len() > 0 {
        lowered_loses(m, files.drop_last(), useful, file);
        if files.contains(file) && files.last() != file {
            let i = files.index_of(file);
            assert(files.drop_last()[i] == file);
        }
    }
}

proof fn lowered_keeps_useful(
    m: Map<Seq<char>, i64>,
    files: Seq<Seq<char>>,
    useful: Seq<Seq<char>>,
    file: Seq<char>,
)
    requires
        useful.contains(file),
    ensures
        weight(lowered(m, files, useful), file) == weight(m, file),
    decreases files.len(),
{
    if files.len() > 0 {
        lowered_keeps_useful(m, files.drop_last(), useful, file);
    }
}

/// Weights add up, file by file.
pub proof fn weights_add_up(m: Map<Seq<char>, i64>, a: Seq<Seq<char>>, b: Seq<Seq<char>>, f: Seq<char>)
    ensures
        weight_sum(m, Seq::empty()) == 0,
        weight_sum(m, seq![f]) == weight(m, f),
        weight_sum(m, a + b) == weight_sum(m, a) + weight_sum(m, b),
    decreases b.len(),
{
    reveal_with_fuel(weight_sum, 2);
    assert(seq![f].drop_last() =~= Seq::empty());
    if b.len() == 0 {
        assert(a + b =~= a);
    } else {
        weights_add_up(m, a, b.drop_last(), f);
        assert((a + b).drop_last() =~= a + b.drop_last());
    }
}

/// A file that was modified gains two, and one that was only shown loses one,
/// between four and sixty; a file that is not known weighs twenty.
pub proof fn one_task_is_one_step(
    m: Map<Seq<char>, i64>,
    file: Seq<char>,
    other: Seq<char>,
)
    requires
        file != other,
        4 <= weight(m, file) <= 60,
        4 <= weight(m, other) <= 60,
    ensures
        !m.dom().contains(file) ==> weight(m, file) == 20,
        ({
            let after = adjusted(m, seq![file], seq![file, other]);
            &&& weight(after, file) == (if weight(m, file) + 2 <= 60 {
                weight(m, file) + 2
            } else {
                60int
            })
            &&& weight(after, other) == (if weight(m, other) - 1 >= 4 {
                weight(m, other) - 1
            } else {
                4int
            })
        }),
{
    reveal_with_fuel(raised, 2);
    reveal_with_fuel(lowered, 3);
    let one = seq![file];
    let two = seq![file, other];
    assert(one.drop_last() =~= Seq::empty());
    assert(two.drop_last() =~= one);
    assert(one[0] == file);
    assert(one.contains(file));
    assert(!one.contains(other));
}

} // verus!
