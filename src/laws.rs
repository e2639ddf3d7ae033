use crate::exact::{
    cov_num, describes, first_len, grand_total, input_error, lemma_views_well_formed, memberships,
    moment1, moment2, observations, total, well_formed, Estimate, Ratio,
};
use vstd::prelude::*;

verus! {

/// Sum of the first `kk` entries of `row`.
pub open spec fn row_sum(row: Seq<int>, kk: int) -> int
    decreases kk,
{
    if kk <= 0 {
        0
    } else {
        row_sum(row, kk - 1) + row[kk - 1]
    }
}

/// Sum of every responsibility of the first `kk` components over the first `m`
/// observations, taken observation by observation.
pub open spec fn entry_sum(r: Seq<Seq<int>>, m: int, kk: int) -> int
    decreases m,
{
    if m <= 0 {
        0
    } else {
        entry_sum(r, m - 1, kk) + row_sum(r[m - 1], kk)
    }
}

/// Sum of the numerators of the first `kk` ratios of `ws`.
pub open spec fn numerator_sum(ws: Seq<Ratio>, kk: int) -> int
    decreases kk,
{
    if kk <= 0 {
        0
    } else {
        numerator_sum(ws, kk - 1) + ws[kk - 1].num
    }
}

/// Every length of `data` and `resp` fits in a `usize`, as those of vectors do.
pub open spec fn lengths_fit(data: Seq<Vec<i32>>, resp: Seq<Vec<u16>>) -> bool {
    &&& data.len() <= usize::MAX
    &&& resp.len() <= usize::MAX
    &&& first_len(data) <= usize::MAX
    &&& first_len(resp) <= usize::MAX
}

/// `est` is what `maximize_exact` returns for `data` and `resp`.
pub open spec fn is_estimate_of(data: Seq<Vec<i32>>, resp: Seq<Vec<u16>>, est: Estimate) -> bool {
    &&& lengths_fit(data, resp)
    &&& input_error(data, resp) is None
    &&& describes(
        est,
        observations(data),
        memberships(resp),
        data.len() as int,
        first_len(data) as int,
        first_len(resp) as int,
    )
}

proof fn lemma_moment2_symmetric(x: Seq<Seq<int>>, r: Seq<Seq<int>>, m: int, j: int, a: int, b: int)
    ensures
        moment2(x, r, m, j, a, b) == moment2(x, r, m, j, b, a),
    decreases m,
{
    if m > 0 {
        lemma_moment2_symmetric(x, r, m - 1, j, a, b);
        assert(x[m - 1][a] * x[m - 1][b] == x[m - 1][b] * x[m - 1][a]) by (nonlinear_arith);
    }
}

/// Every covariance matrix of an estimate is symmetric: entry (`a`, `b`) equals
/// entry (`b`, `a`).
pub proof fn law_covariance_symmetric(data: Seq<Vec<i32>>, resp: Seq<Vec<u16>>, est: Estimate)
    requires
        is_estimate_of(data, resp, est),
    ensures
        forall|j: int, a: int, b: int|
            0 <= j < first_len(resp) && 0 <= a < first_len(data) && 0 <= b < first_len(data)
                ==> #[trigger] est.covariances@[j]@[a]@[b] == est.covariances@[j]@[b]@[a],
{
    let x = observations(data);
    let r = memberships(resp);
    let n = data.len() as int;
    assert forall|j: int, a: int, b: int|
        0 <= j < first_len(resp) && 0 <= a < first_len(data) && 0 <= b < first_len(data)
            implies #[trigger] est.covariances@[j]@[a]@[b] == est.covariances@[j]@[b]@[a] by {
        lemma_moment2_symmetric(x, r, n, j, a, b);
        let sa = moment1(x, r, n, j, a);
        let sb = moment1(x, r, n, j, b);
        assert(sa * sb == sb * sa) by (nonlinear_arith);
        assert(est.covariances@[j]@[a]@[b].num == est.covariances@[j]@[b]@[a].num);
    }
}

proof fn lemma_entry_sum_split(r: Seq<Seq<int>>, m: int, kk: int)
    requires
        kk > 0,
    ensures
        entry_sum(r, m, kk) == entry_sum(r, m, kk - 1) + total(r, m, kk - 1),
    decreases m,
{
    if m > 0 {
        lemma_entry_sum_split(r, m - 1, kk);
    }
}

proof fn lemma_grand_total_is_entry_sum(r: Seq<Seq<int>>, n: int, kk: int)
    ensures
        grand_total(r, n, kk) == entry_sum(r, n, kk),
    decreases kk,
{
    if kk <= 0 {
        lemma_entry_sum_zero(r, n, kk);
    } else {
        lemma_grand_total_is_entry_sum(r, n, kk - 1);
        lemma_entry_sum_split(r, n, kk);
    }
}

proof fn lemma_entry_sum_zero(r: Seq<Seq<int>>, m: int, kk: int)
    requires
        kk <= 0,
    ensures
        entry_sum(r, m, kk) == 0,
    decreases m,
{
    if m > 0 {
        lemma_entry_sum_zero(r, m - 1, kk);
    }
}

proof fn lemma_numerator_sum(ws: Seq<Ratio>, r: Seq<Seq<int>>, n: int, kk: int)
    requires
        0 <= kk <= ws.len(),
        forall|j: int| 0 <= j < kk ==> (#[trigger] ws[j]).num == total(r, n, j),
    ensures
        numerator_sum(ws, kk) == grand_total(r, n, kk),
    decreases kk,
{
    if kk > 0 {
        lemma_numerator_sum(ws, r, n, kk - 1);
    }
}

/// The mixing weights sum to one: they share one denominator, the sum of all
/// responsibilities, and their numerators add up to it.
pub proof fn law_weights_sum_to_one(data: Seq<Vec<i32>>, resp: Seq<Vec<u16>>, est: Estimate)
    requires
        is_estimate_of(data, resp, est),
    ensures
        forall|j: int|
            0 <= j < first_len(resp) ==> (#[trigger] est.weights@[j]).den == entry_sum(
                memberships(resp),
                data.len() as int,
                first_len(resp) as int,
            ),
        numerator_sum(est.weights@, first_len(resp) as int) == entry_sum(
            memberships(resp),
            data.len() as int,
            first_len(resp) as int,
        ),
{
    let r = memberships(resp);
    let n = data.len() as int;
    let k = first_len(resp) as int;
    lemma_grand_total_is_entry_sum(r, n, k);
    lemma_numerator_sum(est.weights@, r, n, k);
}

/// The direct formulation of a covariance numerator: the `r`-weighted sum over
/// the first `m` observations of the products of the deviations of coordinates
/// `a` and `b` from the mean `sa / t`, `sb / t`, each scaled by `t`. Over `t`
/// cubed it is the covariance entry.
pub open spec fn centered_moment(
    x: Seq<Seq<int>>,
    r: Seq<Seq<int>>,
    m: int,
    j: int,
    a: int,
    b: int,
    t: int,
    sa: int,
    sb: int,
) -> int
    decreases m,
{
    if m <= 0 {
        0
    } else {
        centered_moment(x, r, m - 1, j, a, b, t, sa, sb) + r[m - 1][j] * ((t * x[m - 1][a] - sa) * (
        t * x[m - 1][b] - sb))
    }
}

/// The inputs of an estimate are well formed.
pub proof fn lemma_estimate_inputs(data: Seq<Vec<i32>>, resp: Seq<Vec<u16>>)
    requires
        lengths_fit(data, resp),
        input_error(data, resp) is None,
    ensures
        well_formed(
            observations(data),
            memberships(resp),
            data.len() as int,
            first_len(data) as int,
            first_len(resp) as int,
        ),
        data.len() > 0,
        first_len(data) > 0,
        first_len(resp) > 0,
{
    lemma_views_well_formed(data, resp, first_len(data) as int, first_len(resp) as int);
}

proof fn lemma_mul_sub_sub(p: int, q: int, u: int, v: int)
    ensures
        (p - q) * (u - v) == p * u - p * v - q * u + q * v,
{
    assert((p - q) * (u - v) == p * u - p * v - q * u + q * v) by (nonlinear_arith);
}

proof fn lemma_mul_square_pair(t: int, a: int, b: int)
    ensures
        (t * a) * (t * b) == (t * t) * (a * b),
{
    assert((t * a) * (t * b) == (t * t) * (a * b)) by (nonlinear_arith);
}

proof fn lemma_mul_swap_right(t: int, a: int, s: int)
    ensures
        (t * a) * s == t * s * a,
{
    assert((t * a) * s == t * s * a) by (nonlinear_arith);
}

proof fn lemma_mul_swap_left(s: int, t: int, b: int)
    ensures
        s * (t * b) == t * s * b,
{
    assert(s * (t * b) == t * s * b) by (nonlinear_arith);
}

proof fn lemma_mul_four(c: int, p: int, q: int, u: int, v: int)
    ensures
        c * (p - q - u + v) == c * p - c * q - c * u + c * v,
{
    assert(c * (p - q - u + v) == c * p - c * q - c * u + c * v) by (nonlinear_arith);
}

proof fn lemma_mul_rotate(c: int, p: int, q: int)
    ensures
        c * (p * q) == p * (c * q),
{
    assert(c * (p * q) == p * (c * q)) by (nonlinear_arith);
}

proof fn lemma_centered_expansion(
    x: Seq<Seq<int>>,
    r: Seq<Seq<int>>,
    m: int,
    j: int,
    a: int,
    b: int,
    t: int,
    sa: int,
    sb: int,
)
    ensures
        centered_moment(x, r, m, j, a, b, t, sa, sb) == t * t * moment2(x, r, m, j, a, b) - t * sb
            * moment1(x, r, m, j, a) - t * sa * moment1(x, r, m, j, b) + sa * sb * total(r, m, j),
    decreases m,
{
    if m > 0 {
        lemma_centered_expansion(x, r, m - 1, j, a, b, t, sa, sb);
        let c0 = centered_moment(x, r, m - 1, j, a, b, t, sa, sb);
        let q0 = moment2(x, r, m - 1, j, a, b);
        let p0 = moment1(x, r, m - 1, j, a);
        let s0 = moment1(x, r, m - 1, j, b);
        let t0 = total(r, m - 1, j);
        let rv = r[m - 1][j];
        let xa = x[m - 1][a];
        let xb = x[m - 1][b];
        let tt = t * t;
        let u = xa * xb;
        lemma_mul_sub_sub(t * xa, sa, t * xb, sb);
        lemma_mul_square_pair(t, xa, xb);
        lemma_mul_swap_right(t, xa, sb);
        lemma_mul_swap_left(sa, t, xb);
        let e = tt * u - t * sb * xa - t * sa * xb + sa * sb;
        lemma_mul_four(rv, tt * u, t * sb * xa, t * sa * xb, sa * sb);
        lemma_mul_rotate(rv, tt, u);
        lemma_mul_rotate(rv, t * sb, xa);
        lemma_mul_rotate(rv, t * sa, xb);
        assert(rv * (sa * sb) == sa * sb * rv) by (nonlinear_arith);
        assert(tt * (q0 + rv * u) == tt * q0 + tt * (rv * u)) by (nonlinear_arith);
        assert(t * sb * (p0 + rv * xa) == t * sb * p0 + t * sb * (rv * xa)) by (nonlinear_arith);
        assert(t * sa * (s0 + rv * xb) == t * sa * s0 + t * sa * (rv * xb)) by (nonlinear_arith);
        assert(sa * sb * (t0 + rv) == sa * sb * t0 + sa * sb * rv) by (nonlinear_arith);
    }
}

proof fn lemma_covariance_centered_entry(x: Seq<Seq<int>>, r: Seq<Seq<int>>, n: int, j: int, a: int, b: int)
    ensures
        total(r, n, j) * cov_num(x, r, n, j, a, b) == centered_moment(
            x,
            r,
            n,
            j,
            a,
            b,
            total(r, n, j),
            moment1(x, r, n, j, a),
            moment1(x, r, n, j, b),
        ),
{
    let t = total(r, n, j);
    let sa = moment1(x, r, n, j, a);
    let sb = moment1(x, r, n, j, b);
    let q = moment2(x, r, n, j, a, b);
    lemma_centered_expansion(x, r, n, j, a, b, t, sa, sb);
    assert(t * (t * q - sa * sb) == t * t * q - t * sb * sa - t * sa * sb + sa * sb * t)
        by (nonlinear_arith);
}

/// Each covariance entry is the weighted mean of the products of the centered
/// coordinates: its numerator times the component's total is the
/// `centered_moment` about the component's mean, so that the entry equals that
/// moment over the total cubed.
pub proof fn law_covariance_is_centered(data: Seq<Vec<i32>>, resp: Seq<Vec<u16>>, est: Estimate)
    requires
        is_estimate_of(data, resp, est),
    ensures
        forall|j: int, a: int, b: int|
            0 <= j < first_len(resp) && 0 <= a < first_len(data) && 0 <= b < first_len(data)
                ==> total(memberships(resp), data.len() as int, j) * (
            #[trigger] est.covariances@[j]@[a]@[b]).num == centered_moment(
                observations(data),
                memberships(resp),
                data.len() as int,
                j,
                a,
                b,
                total(memberships(resp), data.len() as int, j),
                moment1(observations(data), memberships(resp), data.len() as int, j, a),
                moment1(observations(data), memberships(resp), data.len() as int, j, b),
            ),
{
    let x = observations(data);
    let r = memberships(resp);
    let n = data.len() as int;
    assert forall|j: int, a: int, b: int|
        0 <= j < first_len(resp) && 0 <= a < first_len(data) && 0 <= b < first_len(data)
            implies total(r, n, j) * (#[trigger] est.covariances@[j]@[a]@[b]).num == centered_moment(
        x,
        r,
        n,
        j,
        a,
        b,
        total(r, n, j),
        moment1(x, r, n, j, a),
        moment1(x, r, n, j, b),
    ) by {
        lemma_covariance_centered_entry(x, r, n, j, a, b);
    }
}

proof fn lemma_centered_square_nonneg(x: Seq<Seq<int>>, r: Seq<Seq<int>>, m: int, j: int, a: int, t: int, s: int)
    requires
        0 <= m <= r.len(),
        forall|i: int| 0 <= i < m ==> #[trigger] r[i][j] >= 0,
    ensures
        centered_moment(x, r, m, j, a, a, t, s, s) >= 0,
    decreases m,
{
    if m > 0 {
        lemma_centered_square_nonneg(x, r, m - 1, j, a, t, s);
        let rv = r[m - 1][j];
        let y = t * x[m - 1][a] - s;
        assert(rv * (y * y) >= 0) by (nonlinear_arith)
            requires
                rv >= 0,
        ;
    }
}

/// The diagonal of the covariance matrix of a component with a positive total
/// is non-negative.
pub proof fn law_covariance_diagonal_nonnegative(data: Seq<Vec<i32>>, resp: Seq<Vec<u16>>, est: Estimate)
    requires
        is_estimate_of(data, resp, est),
    ensures
        forall|j: int, a: int|
            0 <= j < first_len(resp) && 0 <= a < first_len(data) && total(
                memberships(resp),
                data.len() as int,
                j,
            ) > 0 ==> (#[trigger] est.covariances@[j]@[a]@[a]).num >= 0
                && est.covariances@[j]@[a]@[a].den > 0,
{
    let x = observations(data);
    let r = memberships(resp);
    let n = data.len() as int;
    lemma_estimate_inputs(data, resp);
    assert forall|j: int, a: int|
        0 <= j < first_len(resp) && 0 <= a < first_len(data) && total(r, n, j) > 0 implies (
    #[trigger] est.covariances@[j]@[a]@[a]).num >= 0 && est.covariances@[j]@[a]@[a].den > 0 by {
        let t = total(r, n, j);
        let s = moment1(x, r, n, j, a);
        lemma_covariance_centered_entry(x, r, n, j, a, a);
        lemma_centered_square_nonneg(x, r, n, j, a, t, s);
        let c = cov_num(x, r, n, j, a, a);
        assert(c >= 0 && t * t > 0) by (nonlinear_arith)
            requires
                t > 0,
                t * c >= 0,
        ;
    }
}

proof fn lemma_single_support(x: Seq<Seq<int>>, r: Seq<Seq<int>>, m: int, j: int, a: int, b: int, i0: int)
    requires
        0 <= i0,
        forall|i: int| 0 <= i < m && i != i0 ==> #[trigger] r[i][j] == 0,
    ensures
        total(r, m, j) == if m > i0 { r[i0][j] } else { 0 },
        moment1(x, r, m, j, a) == if m > i0 { r[i0][j] * x[i0][a] } else { 0 },
        moment1(x, r, m, j, b) == if m > i0 { r[i0][j] * x[i0][b] } else { 0 },
        moment2(x, r, m, j, a, b) == if m > i0 { r[i0][j] * (x[i0][a] * x[i0][b]) } else { 0 },
    decreases m,
{
    if m > 0 {
        lemma_single_support(x, r, m - 1, j, a, b, i0);
        if m - 1 != i0 {
            assert(r[m - 1][j] == 0);
        }
    }
}

/// A component whose whole responsibility rests on a single observation has a
/// covariance matrix of zeros: one centered point has no spread.
pub proof fn law_one_point_component_has_zero_covariance(
    data: Seq<Vec<i32>>,
    resp: Seq<Vec<u16>>,
    est: Estimate,
    j: int,
    i0: int,
)
    requires
        is_estimate_of(data, resp, est),
        0 <= j < first_len(resp),
        0 <= i0 < data.len(),
        memberships(resp)[i0][j] > 0,
        forall|i: int| 0 <= i < data.len() && i != i0 ==> #[trigger] memberships(resp)[i][j] == 0,
    ensures
        forall|a: int, b: int|
            0 <= a < first_len(data) && 0 <= b < first_len(data) ==> (
            #[trigger] est.covariances@[j]@[a]@[b]).num == 0 && est.covariances@[j]@[a]@[b].den > 0,
{
    let x = observations(data);
    let r = memberships(resp);
    let n = data.len() as int;
    assert forall|a: int, b: int| 0 <= a < first_len(data) && 0 <= b < first_len(data) implies (
    #[trigger] est.covariances@[j]@[a]@[b]).num == 0 && est.covariances@[j]@[a]@[b].den > 0 by {
        lemma_single_support(x, r, n, j, a, b, i0);
        let w = r[i0][j];
        let xa = x[i0][a];
        let xb = x[i0][b];
        assert(w * (w * (xa * xb)) - (w * xa) * (w * xb) == 0 && w * w > 0) by (nonlinear_arith)
            requires
                w > 0,
        ;
    }
}

/// `r` with every responsibility multiplied by `c`.
pub open spec fn scaled(r: Seq<Seq<int>>, c: int) -> Seq<Seq<int>> {
    r.map_values(|row: Seq<int>| row.map_values(|v: int| c * v))
}

/// The ratios `p` and `q` stand for the same quotient.
pub open spec fn same_value(p: Ratio, q: Ratio) -> bool {
    p.num * q.den == q.num * p.den
}

proof fn lemma_scaled_sums(x: Seq<Seq<int>>, r: Seq<Seq<int>>, c: int, m: int, j: int, a: int, b: int)
    requires
        0 <= m <= r.len(),
        0 <= j,
        forall|i: int| 0 <= i < m ==> j < (#[trigger] r[i]).len(),
    ensures
        total(scaled(r, c), m, j) == c * total(r, m, j),
        moment1(x, scaled(r, c), m, j, a) == c * moment1(x, r, m, j, a),
        moment2(x, scaled(r, c), m, j, a, b) == c * moment2(x, r, m, j, a, b),
    decreases m,
{
    if m > 0 {
        lemma_scaled_sums(x, r, c, m - 1, j, a, b);
        let rs = scaled(r, c);
        assert(rs[m - 1] == r[m - 1].map_values(|v: int| c * v));
        assert(rs[m - 1][j] == c * r[m - 1][j]);
        let rv = r[m - 1][j];
        assert(c * total(r, m - 1, j) + c * rv == c * (total(r, m - 1, j) + rv)) by (nonlinear_arith);
        lemma_mul_rotate(c, rv, x[m - 1][a]);
        assert((c * rv) * x[m - 1][a] == c * (rv * x[m - 1][a])) by (nonlinear_arith);
        assert(c * moment1(x, r, m - 1, j, a) + c * (rv * x[m - 1][a]) == c * (moment1(
            x,
            r,
            m - 1,
            j,
            a,
        ) + rv * x[m - 1][a])) by (nonlinear_arith);
        let u = x[m - 1][a] * x[m - 1][b];
        assert((c * rv) * u == c * (rv * u)) by (nonlinear_arith);
        assert(c * moment2(x, r, m - 1, j, a, b) + c * (rv * u) == c * (moment2(x, r, m - 1, j, a, b)
            + rv * u)) by (nonlinear_arith);
    }
}

proof fn lemma_scaled_grand_total(r: Seq<Seq<int>>, c: int, n: int, kk: int, k: int)
    requires
        0 <= n <= r.len(),
        kk <= k,
        forall|i: int| 0 <= i < n ==> k <= (#[trigger] r[i]).len(),
    ensures
        grand_total(scaled(r, c), n, kk) == c * grand_total(r, n, kk),
    decreases kk,
{
    if kk > 0 {
        lemma_scaled_grand_total(r, c, n, kk - 1, k);
        lemma_scaled_sums(r, r, c, n, kk - 1, 0, 0);
        assert(c * grand_total(r, n, kk - 1) + c * total(r, n, kk - 1) == c * (grand_total(
            r,
            n,
            kk - 1,
        ) + total(r, n, kk - 1))) by (nonlinear_arith);
    }
}

/// Multiplying every responsibility by the same positive constant changes no
/// mean, covariance or weight: the constant cancels in each quotient.
pub proof fn law_scale_invariance(
    data: Seq<Vec<i32>>,
    resp: Seq<Vec<u16>>,
    est: Estimate,
    scaled_resp: Seq<Vec<u16>>,
    scaled_est: Estimate,
    c: int,
)
    requires
        c > 0,
        is_estimate_of(data, resp, est),
        is_estimate_of(data, scaled_resp, scaled_est),
        memberships(scaled_resp) == scaled(memberships(resp), c),
    ensures
        first_len(scaled_resp) == first_len(resp),
        forall|j: int, a: int|
            0 <= j < first_len(resp) && 0 <= a < first_len(data) ==> same_value(
                #[trigger] est.means@[j]@[a],
                scaled_est.means@[j]@[a],
            ),
        forall|j: int, a: int, b: int|
            0 <= j < first_len(resp) && 0 <= a < first_len(data) && 0 <= b < first_len(data)
                ==> same_value(
                #[trigger] est.covariances@[j]@[a]@[b],
                scaled_est.covariances@[j]@[a]@[b],
            ),
        forall|j: int|
            0 <= j < first_len(resp) ==> same_value(
                #[trigger] est.weights@[j],
                scaled_est.weights@[j],
            ),
{
    let x = observations(data);
    let r = memberships(resp);
    let rs = memberships(scaled_resp);
    let n = data.len() as int;
    let k = first_len(resp) as int;
    lemma_estimate_inputs(data, resp);
    lemma_estimate_inputs(data, scaled_resp);
    assert(rs[0] == scaled_resp[0]@.map_values(|v: u16| v as int));
    assert(r[0] == resp[0]@.map_values(|v: u16| v as int));
    assert(rs[0] == r[0].map_values(|v: int| c * v));
    assert(first_len(scaled_resp) == first_len(resp));
    assert forall|j: int, a: int|
        0 <= j < k && 0 <= a < first_len(data) implies same_value(
        #[trigger] est.means@[j]@[a],
        scaled_est.means@[j]@[a],
    ) by {
        lemma_scaled_sums(x, r, c, n, j, a, a);
        let t = total(r, n, j);
        let s = moment1(x, r, n, j, a);
        assert(s * (c * t) == (c * s) * t) by (nonlinear_arith);
    }
    assert forall|j: int, a: int, b: int|
        0 <= j < k && 0 <= a < first_len(data) && 0 <= b < first_len(data) implies same_value(
        #[trigger] est.covariances@[j]@[a]@[b],
        scaled_est.covariances@[j]@[a]@[b],
    ) by {
        lemma_scaled_sums(x, r, c, n, j, a, b);
        lemma_scaled_sums(x, r, c, n, j, b, a);
        let t = total(r, n, j);
        let sa = moment1(x, r, n, j, a);
        let sb = moment1(x, r, n, j, b);
        let q = moment2(x, r, n, j, a, b);
        let v = t * q - sa * sb;
        lemma_mul_square_pair(c, t, q);
        lemma_mul_square_pair(c, sa, sb);
        lemma_mul_square_pair(c, t, t);
        let cc = c * c;
        assert(cc * (t * q) - cc * (sa * sb) == cc * v) by (nonlinear_arith)
            requires
                v == t * q - sa * sb,
        ;
        assert(v * ((c * c) * (t * t)) == ((c * c) * v) * (t * t)) by (nonlinear_arith);
    }
    lemma_scaled_grand_total(r, c, n, k, k);
    assert forall|j: int| 0 <= j < k implies same_value(
        #[trigger] est.weights@[j],
        scaled_est.weights@[j],
    ) by {
        lemma_scaled_sums(x, r, c, n, j, 0, 0);
        let t = total(r, n, j);
        let g = grand_total(r, n, k);
        assert(t * (c * g) == (c * t) * g) by (nonlinear_arith);
    }
}

/// Sum of coordinate `a` over the first `m` observations.
pub open spec fn column_sum(x: Seq<Seq<int>>, m: int, a: int) -> int
    decreases m,
{
    if m <= 0 {
        0
    } else {
        column_sum(x, m - 1, a) + x[m - 1][a]
    }
}

/// Sum over the first `m` observations of the products of the deviations of
/// coordinates `a` and `b` from `sa / t` and `sb / t`, each scaled by `t`; with
/// `t` the number of observations and `sa`, `sb` the column sums, over `t`
/// cubed it is the population covariance.
pub open spec fn deviation_product_sum(x: Seq<Seq<int>>, m: int, a: int, b: int, t: int, sa: int, sb: int) -> int
    decreases m,
{
    if m <= 0 {
        0
    } else {
        deviation_product_sum(x, m - 1, a, b, t, sa, sb) + (t * x[m - 1][a] - sa) * (t * x[m - 1][b]
            - sb)
    }
}

proof fn lemma_unit_weights(x: Seq<Seq<int>>, r: Seq<Seq<int>>, m: int, a: int, b: int, t: int, sa: int, sb: int)
    requires
        forall|i: int| 0 <= i < m ==> #[trigger] r[i][0] == 1,
    ensures
        total(r, m, 0) == if m > 0 { m } else { 0 },
        moment1(x, r, m, 0, a) == column_sum(x, m, a),
        centered_moment(x, r, m, 0, a, b, t, sa, sb) == deviation_product_sum(x, m, a, b, t, sa, sb),
    decreases m,
{
    if m > 0 {
        lemma_unit_weights(x, r, m - 1, a, b, t, sa, sb);
        assert(r[m - 1][0] == 1);
    }
}

/// With one component and every responsibility one, the mean is the arithmetic
/// mean of the observations, the covariance is their population covariance
/// (the deviation product sum over the count cubed), and the weight is one.
pub proof fn law_single_component(data: Seq<Vec<i32>>, resp: Seq<Vec<u16>>, est: Estimate)
    requires
        is_estimate_of(data, resp, est),
        first_len(resp) == 1,
        forall|i: int| 0 <= i < data.len() ==> #[trigger] memberships(resp)[i][0] == 1,
    ensures
        forall|a: int|
            0 <= a < first_len(data) ==> (#[trigger] est.means@[0]@[a]).num == column_sum(
                observations(data),
                data.len() as int,
                a,
            ) && est.means@[0]@[a].den == data.len(),
        forall|a: int, b: int|
            0 <= a < first_len(data) && 0 <= b < first_len(data) ==> data.len() * (
            #[trigger] est.covariances@[0]@[a]@[b]).num == deviation_product_sum(
                observations(data),
                data.len() as int,
                a,
                b,
                data.len() as int,
                column_sum(observations(data), data.len() as int, a),
                column_sum(observations(data), data.len() as int, b),
            ) && est.covariances@[0]@[a]@[b].den == data.len() * data.len(),
        est.weights@[0].num == est.weights@[0].den,
        est.weights@[0].den == data.len(),
{
    let x = observations(data);
    let r = memberships(resp);
    let n = data.len() as int;
    lemma_estimate_inputs(data, resp);
    lemma_unit_weights(x, r, n, 0, 0, 0, 0, 0);
    assert(grand_total(r, n, 0) == 0);
    assert(grand_total(r, n, 1) == total(r, n, 0));
    assert forall|a: int| 0 <= a < first_len(data) implies (#[trigger] est.means@[0]@[a]).num
        == column_sum(x, n, a) && est.means@[0]@[a].den == n by {
        lemma_unit_weights(x, r, n, a, a, 0, 0, 0);
    }
    assert forall|a: int, b: int| 0 <= a < first_len(data) && 0 <= b < first_len(data) implies n * (
    #[trigger] est.covariances@[0]@[a]@[b]).num == deviation_product_sum(
        x,
        n,
        a,
        b,
        n,
        column_sum(x, n, a),
        column_sum(x, n, b),
    ) && est.covariances@[0]@[a]@[b].den == n * n by {
        let sa = column_sum(x, n, a);
        let sb = column_sum(x, n, b);
        lemma_unit_weights(x, r, n, a, b, n, sa, sb);
        lemma_unit_weights(x, r, n, b, a, n, sa, sb);
        lemma_covariance_centered_entry(x, r, n, 0, a, b);
    }
}

} // verus!
