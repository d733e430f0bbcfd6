use vstd::prelude::*;

use crate::color::Rgb;
use crate::hsl::{lightness_of, saturation_of, Fraction, HSL};
use crate::palette::{position_of, sum_of, Palette};
use crate::settings::{TargetRange, Weights};

verus! {

pub open spec fn abs(x: int) -> int {
    if x >= 0 {
        x
    } else {
        -x
    }
}

/// Whether the fraction `v` lies within `[range.min, range.max]` hundredths.
pub open spec fn within(v: (int, int), range: TargetRange) -> bool {
    range.min * v.1 <= 100 * v.0 && 100 * v.0 <= range.max * v.1
}

/// `1 - |v - target|`, scaled by `100 * v.1`.
pub open spec fn closeness(v: (int, int), target: int) -> int {
    100 * v.1 - abs(100 * v.0 - target * v.1)
}

/// The score of a colour of saturation `s`, lightness `l` and population
/// `pop` out of `total`: the mean of `1 - |s - target saturation|`,
/// `1 - |l - target lightness|` and `pop / total`, weighted by `w`. It is
/// given as a fraction `(numerator, denominator)` over one common
/// denominator.
pub open spec fn score(
    s: (int, int),
    l: (int, int),
    pop: int,
    total: int,
    luma: TargetRange,
    saturation: TargetRange,
    w: Weights,
) -> (int, int) {
    let num = w.saturation * closeness(s, saturation.target as int) * l.1 * total + w.luma
        * closeness(l, luma.target as int) * s.1 * total + w.population * pop * 100 * s.1 * l.1;
    (num, (w.saturation + w.luma + w.population) * 100 * s.1 * l.1 * total)
}

/// Fraction `a` is strictly greater than fraction `b` (both denominators
/// positive).
pub open spec fn outscores(a: (int, int), b: (int, int)) -> bool {
    a.0 * b.1 > b.0 * a.1
}

/// Entry `k` of the palette may fill the swatch: its saturation and
/// lightness lie in their windows, no earlier swatch has claimed it, and it
/// stands for at least one pixel.
pub open spec fn eligible(
    p: Palette,
    claimed: Seq<Rgb>,
    k: int,
    luma: TargetRange,
    saturation: TargetRange,
) -> bool {
    let c = p.palette@[k];
    &&& within(saturation_of(c), saturation)
    &&& within(lightness_of(c), luma)
    &&& !claimed.contains(c)
    &&& p.pixel_counts@[k] > 0
}

pub open spec fn candidate_score(
    p: Palette,
    k: int,
    luma: TargetRange,
    saturation: TargetRange,
    w: Weights,
) -> (int, int) {
    let c = p.palette@[k];
    score(
        saturation_of(c),
        lightness_of(c),
        p.pixel_counts@[k] as int,
        sum_of(p.pixel_counts@),
        luma,
        saturation,
        w,
    )
}

/// Entry `k` is eligible, no eligible entry scores higher, and every
/// eligible entry before it scores lower.
pub open spec fn is_best(
    p: Palette,
    claimed: Seq<Rgb>,
    k: int,
    luma: TargetRange,
    saturation: TargetRange,
    w: Weights,
) -> bool {
    &&& 0 <= k < p.palette@.len()
    &&& eligible(p, claimed, k, luma, saturation)
    &&& forall|j: int|
        0 <= j < p.palette@.len() && eligible(p, claimed, j, luma, saturation) ==> !outscores(
            candidate_score(p, j, luma, saturation, w),
            candidate_score(p, k, luma, saturation, w),
        )
    &&& forall|j: int|
        0 <= j < k && eligible(p, claimed, j, luma, saturation) ==> outscores(
            candidate_score(p, k, luma, saturation, w),
            candidate_score(p, j, luma, saturation, w),
        )
}

/// `r` is the swatch chosen from `p`: absent when no entry is eligible,
/// else the colour of the first entry of highest score.
pub open spec fn is_selection(
    r: Option<Rgb>,
    p: Palette,
    claimed: Seq<Rgb>,
    luma: TargetRange,
    saturation: TargetRange,
    w: Weights,
) -> bool {
    match r {
        None => forall|k: int|
            0 <= k < p.palette@.len() ==> !eligible(p, claimed, k, luma, saturation),
        Some(c) => exists|k: int|
            is_best(p, claimed, k, luma, saturation, w) && p.palette@[k] == c,
    }
}

proof fn lemma_saturation_den(c: Rgb)
    ensures
        0 < saturation_of(c).1 <= 510,
        lightness_of(c).1 == 510,
{
}

proof fn lemma_sum_prefix(s: Seq<usize>, i: int)
    requires
        0 <= i <= s.len(),
    ensures
        sum_of(s.take(i)) <= sum_of(s),
    decreases s.len(),
{
    if i == s.len() {
        assert(s.take(i) =~= s);
    } else {
        assert(s.drop_last().take(i) =~= s.take(i));
        lemma_sum_prefix(s.drop_last(), i);
    }
}

proof fn lemma_sum_element(s: Seq<usize>, k: int)
    requires
        0 <= k < s.len(),
    ensures
        s[k] <= sum_of(s),
    decreases s.len(),
{
    lemma_sum_nonneg(s.drop_last());
    if k < s.len() - 1 {
        lemma_sum_element(s.drop_last(), k);
    }
}

proof fn lemma_sum_nonneg(s: Seq<usize>)
    ensures
        sum_of(s) >= 0,
    decreases s.len(),
{
    if s.len() > 0 {
        lemma_sum_nonneg(s.drop_last());
    }
}

proof fn lemma_outscores_common(a: (int, int), b: (int, int), sa: int, sb: int, c: int)
    requires
        c > 0,
        a.1 == sa * c,
        b.1 == sb * c,
    ensures
        outscores(a, b) <==> a.0 * sb > b.0 * sa,
{
    assert(a.0 * b.1 == (a.0 * sb) * c) by (nonlinear_arith)
        requires
            b.1 == sb * c,
    ;
    assert(b.0 * a.1 == (b.0 * sa) * c) by (nonlinear_arith)
        requires
            a.1 == sa * c,
    ;
    assert((a.0 * sb) * c > (b.0 * sa) * c <==> a.0 * sb > b.0 * sa) by (nonlinear_arith)
        requires
            c > 0,
    ;
}

proof fn lemma_outscores_trans(a: (int, int), b: (int, int), c: (int, int))
    requires
        a.1 > 0,
        b.1 > 0,
        c.1 > 0,
        !outscores(a, b),
        outscores(c, b),
    ensures
        outscores(c, a),
{
    assert(a.0 * b.1 * c.1 <= b.0 * a.1 * c.1) by (nonlinear_arith)
        requires
            a.0 * b.1 <= b.0 * a.1,
            c.1 > 0,
    ;
    assert(b.0 * c.1 * a.1 < c.0 * b.1 * a.1) by (nonlinear_arith)
        requires
            b.0 * c.1 < c.0 * b.1,
            a.1 > 0,
    ;
    assert(a.0 * c.1 * b.1 < c.0 * a.1 * b.1) by (nonlinear_arith)
        requires
            a.0 * b.1 * c.1 <= b.0 * a.1 * c.1,
            b.0 * c.1 * a.1 < c.0 * b.1 * a.1,
    ;
    assert(a.0 * c.1 < c.0 * a.1) by (nonlinear_arith)
        requires
            a.0 * c.1 * b.1 < c.0 * a.1 * b.1,
            b.1 > 0,
    ;
}

proof fn lemma_positive_den(
    p: Palette,
    k: int,
    luma: TargetRange,
    saturation: TargetRange,
    w: Weights,
)
    requires
        0 <= k < p.palette@.len(),
        p.pixel_counts@.len() == p.palette@.len(),
        p.pixel_counts@[k] > 0,
        w.wf(),
    ensures
        candidate_score(p, k, luma, saturation, w).1 > 0,
{
    let c = p.palette@[k];
    lemma_saturation_den(c);
    lemma_sum_element(p.pixel_counts@, k);
    let sd = saturation_of(c).1;
    let t = sum_of(p.pixel_counts@);
    let ws = w.saturation + w.luma + w.population;
    assert(ws * 100 * sd * 510 * t > 0) by (nonlinear_arith)
        requires
            ws > 0,
            sd > 0,
            t > 0,
    ;
}

/// The sum of the counts.
fn total_count(counts: &Vec<usize>) -> (t: u128)
    requires
        sum_of(counts@) <= usize::MAX,
    ensures
        t == sum_of(counts@),
{
    let mut t: u128 = 0;
    let mut i: usize = 0;
    while i < counts.len()
        invariant
            i <= counts@.len(),
            sum_of(counts@) <= usize::MAX,
            t == sum_of(counts@.take(i as int)),
        decreases counts@.len() - i,
    {
        assert(counts@.take(i + 1).drop_last() =~= counts@.take(i as int));
        proof {
            lemma_sum_prefix(counts@, i + 1);
        }
        t = t + counts[i] as u128;
        i += 1;
    }
    assert(counts@.take(counts@.len() as int) =~= counts@);
    t
}

/// Whether `v` lies within the window of `range`.
fn in_window(v: &Fraction, range: &TargetRange) -> (r: bool)
    requires
        v.den <= 510,
        v.num <= v.den,
        range.wf(),
    ensures
        r == within(v@, *range),
{
    assert(range.min * v.den <= 100 * 510 && range.max * v.den <= 100 * 510) by (nonlinear_arith)
        requires
            range.min <= 100,
            range.max <= 100,
            v.den <= 510,
    ;
    let lo = range.min as u64 * v.den as u64;
    let hi = range.max as u64 * v.den as u64;
    let x = 100 * v.num as u64;
    lo <= x && x <= hi
}

/// `closeness(v, target)`, computed.
fn closeness_num(v: &Fraction, target: u32) -> (r: u128)
    requires
        0 < v.den <= 510,
        v.num <= v.den,
        target <= 100,
    ensures
        r == closeness(v@, target as int),
        r <= 100 * v.den,
{
    assert(target * v.den <= 100 * v.den) by (nonlinear_arith)
        requires
            target <= 100,
    ;
    let a = 100 * v.num as u64;
    let b = target as u64 * v.den as u64;
    let d = if a >= b {
        a - b
    } else {
        b - a
    };
    (100 * v.den as u64 - d) as u128
}

/// The numerator of `score`, computed.
fn score_numerator(
    hsl: &HSL,
    pop: u128,
    total: u128,
    luma: &TargetRange,
    saturation: &TargetRange,
    w: &Weights,
) -> (n: u128)
    requires
        0 < hsl.s.den <= 510,
        hsl.s.num <= hsl.s.den,
        hsl.l.den == 510,
        hsl.l.num <= hsl.l.den,
        pop <= total <= u64::MAX,
        luma.wf(),
        saturation.wf(),
    ensures
        n == score(hsl.s@, hsl.l@, pop as int, total as int, *luma, *saturation, *w).0,
        n <= 19_897_650_000 * total,
{
    let cs = closeness_num(&hsl.s, saturation.target);
    let cl = closeness_num(&hsl.l, luma.target);
    let sd = hsl.s.den as u128;
    let ld = hsl.l.den as u128;
    let (ws, wl, wp) = (w.saturation as u128, w.luma as u128, w.population as u128);
    assert(ws * cs * ld <= 6_632_550_000 && wl * cl * sd <= 6_632_550_000 && wp * 100 * sd * ld
        <= 6_632_550_000) by (nonlinear_arith)
        requires
            ws <= 255,
            wl <= 255,
            wp <= 255,
            cs <= 100 * sd,
            cl <= 100 * ld,
            sd <= 510,
            ld == 510,
    ;
    assert(ws * cs * ld * total <= 6_632_550_000 * total && wl * cl * sd * total <= 6_632_550_000
        * total && wp * pop * 100 * sd * ld <= 6_632_550_000 * total) by (nonlinear_arith)
        requires
            ws * cs * ld <= 6_632_550_000,
            wl * cl * sd <= 6_632_550_000,
            wp * 100 * sd * ld <= 6_632_550_000,
            pop <= total,
            ws >= 0,
            wl >= 0,
            wp >= 0,
            cs >= 0,
            cl >= 0,
            sd >= 0,
            ld >= 0,
    ;
    assert(wl * cl <= 255 * 51000 && wp * pop <= 255 * total && wp * pop * 100 <= 25500 * total
        && wp * pop * 100 * sd <= 13_005_000 * total) by (nonlinear_arith)
        requires
            wl <= 255,
            wp <= 255,
            cl <= 100 * ld,
            ld == 510,
            pop <= total,
            sd <= 510,
            wl >= 0,
            wp >= 0,
            cl >= 0,
            sd >= 0,
            pop >= 0,
    ;
    let t1 = ws * cs * ld * total;
    let t2 = wl * cl * sd * total;
    let t3 = wp * pop * 100 * sd * ld;
    t1 + t2 + t3
}

/// Chooses a swatch from the palette: among the entries whose saturation
/// and lightness lie in their windows, that are not in `claimed` and that
/// stand for at least one pixel, the first of highest score.
pub fn select(
    p: &Palette,
    claimed: &Vec<Rgb>,
    luma: &TargetRange,
    saturation: &TargetRange,
    weights: &Weights,
) -> (r: Option<Rgb>)
    requires
        p.wf(),
        luma.wf(),
        saturation.wf(),
        weights.wf(),
    ensures
        is_selection(r, *p, claimed@, *luma, *saturation, *weights),
        r matches Some(c) ==> !claimed@.contains(c) && p.palette@.contains(c),
{
    let total = total_count(&p.pixel_counts);
    let ghost c_common = (weights.saturation + weights.luma + weights.population) * 100 * 510
        * total;
    let mut best: Option<usize> = None;
    let mut best_num: u128 = 0;
    let mut best_den: u128 = 1;
    let mut k: usize = 0;
    while k < p.palette.len()
        invariant
            p.wf(),
            luma.wf(),
            saturation.wf(),
            weights.wf(),
            total == sum_of(p.pixel_counts@),
            c_common == (weights.saturation + weights.luma + weights.population) * 100 * 510
                * total,
            k <= p.palette@.len(),
            match best {
                None => forall|j: int|
                    0 <= j < k ==> !eligible(*p, claimed@, j, *luma, *saturation),
                Some(b) => {
                    &&& b < k
                    &&& eligible(*p, claimed@, b as int, *luma, *saturation)
                    &&& best_num == candidate_score(*p, b as int, *luma, *saturation, *weights).0
                    &&& best_num <= 19_897_650_000 * total
                    &&& best_den == saturation_of(p.palette@[b as int]).1
                    &&& forall|j: int|
                        0 <= j < k && eligible(*p, claimed@, j, *luma, *saturation) ==> !outscores(
                            candidate_score(*p, j, *luma, *saturation, *weights),
                            candidate_score(*p, b as int, *luma, *saturation, *weights),
                        )
                    &&& forall|j: int|
                        0 <= j < b && eligible(*p, claimed@, j, *luma, *saturation) ==> outscores(
                            candidate_score(*p, b as int, *luma, *saturation, *weights),
                            candidate_score(*p, j, *luma, *saturation, *weights),
                        )
                },
            },
        decreases p.palette@.len() - k,
    {
        let c = p.palette[k];
        let hsl = HSL::from_pixel(&c);
        let count = p.pixel_counts[k];
        proof {
            lemma_sum_element(p.pixel_counts@, k as int);
        }
        let fits = in_window(&hsl.s, saturation) && in_window(&hsl.l, luma);
        if fits && count > 0 && position_of(claimed, &c).is_none() {
            assert(eligible(*p, claimed@, k as int, *luma, *saturation));
            let num = score_numerator(&hsl, count as u128, total, luma, saturation, weights);
            let ghost sk = candidate_score(*p, k as int, *luma, *saturation, *weights);
            proof {
                assert(sk.1 == hsl.s.den * c_common) by (nonlinear_arith)
                    requires
                        sk.1 == (weights.saturation + weights.luma + weights.population) * 100
                            * hsl.s.den * 510 * total,
                        c_common == (weights.saturation + weights.luma + weights.population) * 100
                            * 510 * total,
                ;
                assert(c_common > 0) by (nonlinear_arith)
                    requires
                        c_common == (weights.saturation + weights.luma + weights.population) * 100
                            * 510 * total,
                        weights.saturation + weights.luma + weights.population > 0,
                        total > 0,
                ;
                assert(sk.1 > 0) by (nonlinear_arith)
                    requires
                        sk.1 == hsl.s.den * c_common,
                        hsl.s.den > 0,
                        c_common > 0,
                ;
            }
            let better = match best {
                None => true,
                Some(b) => {
                    let ghost sb = candidate_score(*p, b as int, *luma, *saturation, *weights);
                    proof {
                        lemma_saturation_den(p.palette@[b as int]);
                        assert(sb.1 == best_den * c_common) by (nonlinear_arith)
                            requires
                                sb.1 == (weights.saturation + weights.luma + weights.population)
                                    * 100 * best_den * 510 * total,
                                c_common == (weights.saturation + weights.luma
                                    + weights.population) * 100 * 510 * total,
                        ;
                        lemma_outscores_common(sk, sb, hsl.s.den as int, best_den as int, c_common);
                        assert(num * best_den <= 19_897_650_000 * total * 510 && best_num
                            * hsl.s.den <= 19_897_650_000 * total * 510) by (nonlinear_arith)
                            requires
                                num <= 19_897_650_000 * total,
                                best_num <= 19_897_650_000 * total,
                                best_den <= 510,
                                hsl.s.den <= 510,
                                num >= 0,
                                best_num >= 0,
                        ;
                    }
                    num * best_den > best_num * (hsl.s.den as u128)
                },
            };
            if better {
                proof {
                    assert forall|j: int|
                        0 <= j < k + 1 && eligible(
                            *p,
                            claimed@,
                            j,
                            *luma,
                            *saturation,
                        ) implies !outscores(
                        candidate_score(*p, j, *luma, *saturation, *weights),
                        sk,
                    ) && (j < k ==> outscores(
                        sk,
                        candidate_score(*p, j, *luma, *saturation, *weights),
                    )) by {
                        if j < k {
                            let b = best->0;
                            let sj = candidate_score(*p, j, *luma, *saturation, *weights);
                            let sb = candidate_score(*p, b as int, *luma, *saturation, *weights);
                            lemma_positive_den(*p, j, *luma, *saturation, *weights);
                            lemma_positive_den(*p, b as int, *luma, *saturation, *weights);
                            lemma_outscores_trans(sj, sb, sk);
                        }
                    }
                }
                best = Some(k);
                best_num = num;
                best_den = hsl.s.den as u128;
            }
        }
        k += 1;
    }
    match best {
        Some(b) => {
            assert(is_best(*p, claimed@, b as int, *luma, *saturation, *weights));
            Some(p.palette[b])
        },
        None => None,
    }
}

/// Ties go to the earlier entry: of two eligible entries with equal scores,
/// the later one is never the selection.
pub proof fn lemma_tie_goes_to_first(
    r: Option<Rgb>,
    p: Palette,
    claimed: Seq<Rgb>,
    luma: TargetRange,
    saturation: TargetRange,
    w: Weights,
    j: int,
    k: int,
)
    requires
        p.wf(),
        is_selection(r, p, claimed, luma, saturation, w),
        0 <= j < k < p.palette@.len(),
        eligible(p, claimed, j, luma, saturation),
        eligible(p, claimed, k, luma, saturation),
        !outscores(candidate_score(p, j, luma, saturation, w), candidate_score(p, k, luma, saturation, w)),
        !outscores(candidate_score(p, k, luma, saturation, w), candidate_score(p, j, luma, saturation, w)),
    ensures
        r != Some(p.palette@[k]),
{
    if r == Some(p.palette@[k]) {
        let b = choose|b: int| is_best(p, claimed, b, luma, saturation, w) && p.palette@[b] == p.palette@[k];
        if b != k {
            assert(p.palette@[b] != p.palette@[k]);
        }
    }
}

} // verus!
