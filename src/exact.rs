use crate::shape::{mstep_shape, shape_error, ShapeError};
use vstd::prelude::*;

verus! {

/// The largest number of observations that the exact step accepts; with it every
/// intermediate sum fits in an `i128`.
pub const MAX_OBSERVATIONS: usize = 65536;

/// The exact rational number `num / den`; a zero `den` marks a quotient that is
/// undefined because its divisor vanished.
#[derive(Clone, Copy, Debug, PartialEq, Eq, Structural)]
pub struct Ratio {
    pub num: i128,
    pub den: i128,
}

/// The parameters that an M-step estimates: for each component its mean
/// (`means[j][a]`), its covariance matrix (`covariances[j][a][b]`) and its mixing
/// weight (`weights[j]`).
#[derive(Debug)]
pub struct Estimate {
    pub means: Vec<Vec<Ratio>>,
    pub covariances: Vec<Vec<Vec<Ratio>>>,
    pub weights: Vec<Ratio>,
}

/// The largest magnitude of a responsibility weight.
pub open spec fn resp_bound() -> int {
    65535
}

/// The largest magnitude of an observation coordinate.
pub open spec fn coord_bound() -> int {
    2147483648
}

/// The largest magnitude of one term of `moment1`.
pub open spec fn term1_bound() -> int {
    140735340871680
}

/// The largest magnitude of one term of `moment2`.
pub open spec fn term2_bound() -> int {
    302226843217638866288640
}

/// Observations as a matrix of mathematical integers.
pub open spec fn observations(data: Seq<Vec<i32>>) -> Seq<Seq<int>> {
    data.map_values(|row: Vec<i32>| row@.map_values(|v: i32| v as int))
}

/// Responsibility weights as a matrix of mathematical integers.
pub open spec fn memberships(resp: Seq<Vec<u16>>) -> Seq<Seq<int>> {
    resp.map_values(|row: Vec<u16>| row@.map_values(|v: u16| v as int))
}

/// Sum of the responsibilities of component `j` over the first `m` observations.
pub open spec fn total(r: Seq<Seq<int>>, m: int, j: int) -> int
    decreases m,
{
    if m <= 0 {
        0
    } else {
        total(r, m - 1, j) + r[m - 1][j]
    }
}

/// Responsibility-weighted sum of coordinate `a` for component `j` over the
/// first `m` observations.
pub open spec fn moment1(x: Seq<Seq<int>>, r: Seq<Seq<int>>, m: int, j: int, a: int) -> int
    decreases m,
{
    if m <= 0 {
        0
    } else {
        moment1(x, r, m - 1, j, a) + r[m - 1][j] * x[m - 1][a]
    }
}

/// Responsibility-weighted sum of the products of coordinates `a` and `b` for
/// component `j` over the first `m` observations.
pub open spec fn moment2(x: Seq<Seq<int>>, r: Seq<Seq<int>>, m: int, j: int, a: int, b: int) -> int
    decreases m,
{
    if m <= 0 {
        0
    } else {
        moment2(x, r, m - 1, j, a, b) + r[m - 1][j] * (x[m - 1][a] * x[m - 1][b])
    }
}

/// Sum of the totals of the first `kk` components over `n` observations.
pub open spec fn grand_total(r: Seq<Seq<int>>, n: int, kk: int) -> int
    decreases kk,
{
    if kk <= 0 {
        0
    } else {
        grand_total(r, n, kk - 1) + total(r, n, kk - 1)
    }
}

/// Numerator of covariance entry (`a`, `b`) of component `j`, over the
/// denominator `total(r, n, j)` squared.
pub open spec fn cov_num(x: Seq<Seq<int>>, r: Seq<Seq<int>>, n: int, j: int, a: int, b: int) -> int {
    total(r, n, j) * moment2(x, r, n, j, a, b) - moment1(x, r, n, j, a) * moment1(x, r, n, j, b)
}

/// `data` is `n` rows of `d` coordinates and `resp` is `n` rows of `k`
/// weights, within the bounds of their element types.
pub open spec fn well_formed(x: Seq<Seq<int>>, r: Seq<Seq<int>>, n: int, d: int, k: int) -> bool {
    &&& x.len() == n
    &&& r.len() == n
    &&& forall|i: int| 0 <= i < n ==> (#[trigger] x[i]).len() == d
    &&& forall|i: int| 0 <= i < n ==> (#[trigger] r[i]).len() == k
    &&& forall|i: int, a: int|
        0 <= i < n && 0 <= a < d ==> -coord_bound() <= #[trigger] x[i][a] <= coord_bound()
    &&& forall|i: int, j: int| 0 <= i < n && 0 <= j < k ==> 0 <= #[trigger] r[i][j] <= resp_bound()
}

/// The observations and weights of well-shaped vectors are well formed.
pub proof fn lemma_views_well_formed(data: Seq<Vec<i32>>, resp: Seq<Vec<u16>>, d: int, k: int)
    requires
        data.len() == resp.len(),
        forall|i: int| 0 <= i < data.len() ==> (#[trigger] data[i])@.len() == d,
        forall|i: int| 0 <= i < resp.len() ==> (#[trigger] resp[i])@.len() == k,
    ensures
        well_formed(observations(data), memberships(resp), data.len() as int, d, k),
{
    let x = observations(data);
    let r = memberships(resp);
    assert forall|i: int, a: int| 0 <= i < data.len() && 0 <= a < d implies -coord_bound()
        <= #[trigger] x[i][a] <= coord_bound() by {
        assert(x[i] == data[i]@.map_values(|v: i32| v as int));
    }
    assert forall|i: int, j: int| 0 <= i < data.len() && 0 <= j < k implies 0
        <= #[trigger] r[i][j] <= resp_bound() by {
        assert(r[i] == resp[i]@.map_values(|v: u16| v as int));
    }
}

/// Sums the responsibilities of component `j`.
fn component_total(resp: &Vec<Vec<u16>>, j: usize, Ghost(k): Ghost<int>) -> (t: i128)
    requires
        resp@.len() <= MAX_OBSERVATIONS,
        j < k,
        forall|i: int| 0 <= i < resp@.len() ==> (#[trigger] resp@[i])@.len() == k,
    ensures
        t == total(memberships(resp@), resp@.len() as int, j as int),
        0 <= t <= resp@.len() * resp_bound(),
{
    let ghost r = memberships(resp@);
    let mut t: i128 = 0;
    let mut i: usize = 0;
    while i < resp.len()
        invariant
            i <= resp@.len() <= MAX_OBSERVATIONS,
            j < k,
            forall|i: int| 0 <= i < resp@.len() ==> (#[trigger] resp@[i])@.len() == k,
            r == memberships(resp@),
            t == total(r, i as int, j as int),
            0 <= t <= i * resp_bound(),
        decreases resp@.len() - i,
    {
        assert(r[i as int][j as int] == resp@[i as int]@[j as int] as int);
        t = t + resp[i][j] as i128;
        i = i + 1;
    }
    t
}

/// Weighted sum of coordinate `a` for component `j`.
fn first_moment(data: &Vec<Vec<i32>>, resp: &Vec<Vec<u16>>, j: usize, a: usize, Ghost(d): Ghost<int>, Ghost(k): Ghost<int>) -> (s: i128)
    requires
        resp@.len() <= MAX_OBSERVATIONS,
        well_formed(observations(data@), memberships(resp@), resp@.len() as int, d, k),
        j < k,
        a < d,
    ensures
        s == moment1(observations(data@), memberships(resp@), resp@.len() as int, j as int, a as int),
        -(resp@.len() * term1_bound()) <= s <= resp@.len() * term1_bound(),
{
    let ghost x = observations(data@);
    let ghost r = memberships(resp@);
    let ghost n = resp@.len() as int;
    let mut s: i128 = 0;
    let mut i: usize = 0;
    while i < resp.len()
        invariant
            n == resp@.len() <= MAX_OBSERVATIONS,
            x == observations(data@),
            r == memberships(resp@),
            well_formed(x, r, n, d, k),
            j < k,
            a < d,
            i <= n,
            s == moment1(x, r, i as int, j as int, a as int),
            -(i * term1_bound()) <= s <= i * term1_bound(),
        decreases n - i,
    {
        assert(r[i as int][j as int] == resp@[i as int]@[j as int] as int);
        assert(x[i as int][a as int] == data@[i as int]@[a as int] as int);
        let rv = resp[i][j] as i128;
        let xv = data[i][a] as i128;
        assert(-140735340871680 <= rv * xv <= 140735340871680) by (nonlinear_arith)
            requires
                0 <= rv <= 65535,
                -2147483648 <= xv <= 2147483648,
        ;
        s = s + rv * xv;
        i = i + 1;
    }
    s
}

/// Weighted sum of the products of coordinates `a` and `b` for component `j`.
fn second_moment(data: &Vec<Vec<i32>>, resp: &Vec<Vec<u16>>, j: usize, a: usize, b: usize, Ghost(d): Ghost<int>, Ghost(k): Ghost<int>) -> (s: i128)
    requires
        resp@.len() <= MAX_OBSERVATIONS,
        well_formed(observations(data@), memberships(resp@), resp@.len() as int, d, k),
        j < k,
        a < d,
        b < d,
    ensures
        s == moment2(observations(data@), memberships(resp@), resp@.len() as int, j as int, a as int, b as int),
        -(resp@.len() * term2_bound()) <= s <= resp@.len() * term2_bound(),
{
    let ghost x = observations(data@);
    let ghost r = memberships(resp@);
    let ghost n = resp@.len() as int;
    let mut s: i128 = 0;
    let mut i: usize = 0;
    while i < resp.len()
        invariant
            n == resp@.len() <= MAX_OBSERVATIONS,
            x == observations(data@),
            r == memberships(resp@),
            well_formed(x, r, n, d, k),
            j < k,
            a < d,
            b < d,
            i <= n,
            s == moment2(x, r, i as int, j as int, a as int, b as int),
            -(i * term2_bound()) <= s <= i * term2_bound(),
        decreases n - i,
    {
        assert(r[i as int][j as int] == resp@[i as int]@[j as int] as int);
        assert(x[i as int][a as int] == data@[i as int]@[a as int] as int);
        assert(x[i as int][b as int] == data@[i as int]@[b as int] as int);
        let rv = resp[i][j] as i128;
        let xa = data[i][a] as i128;
        let xb = data[i][b] as i128;
        assert(-4611686018427387904 <= xa * xb <= 4611686018427387904) by (nonlinear_arith)
            requires
                -2147483648 <= xa <= 2147483648,
                -2147483648 <= xb <= 2147483648,
        ;
        let p = xa * xb;
        assert(-302226843217638866288640 <= rv * p <= 302226843217638866288640) by (nonlinear_arith)
            requires
                0 <= rv <= 65535,
                -4611686018427387904 <= p <= 4611686018427387904,
        ;
        s = s + rv * p;
        i = i + 1;
    }
    s
}

/// `row` holds the mean of component `j`: each coordinate's weighted sum over
/// the component's total.
pub open spec fn is_mean_row(row: Seq<Ratio>, x: Seq<Seq<int>>, r: Seq<Seq<int>>, n: int, j: int, d: int) -> bool {
    &&& row.len() == d
    &&& forall|a: int|
        0 <= a < d ==> (#[trigger] row[a]).num == moment1(x, r, n, j, a) && row[a].den == total(r, n, j)
}

/// `row` holds row `a` of the covariance matrix of component `j`.
pub open spec fn is_cov_row(row: Seq<Ratio>, x: Seq<Seq<int>>, r: Seq<Seq<int>>, n: int, j: int, a: int, d: int) -> bool {
    &&& row.len() == d
    &&& forall|b: int|
        0 <= b < d ==> (#[trigger] row[b]).num == cov_num(x, r, n, j, a, b) && row[b].den == total(r, n, j) * total(r, n, j)
}

/// `m` holds the covariance matrix of component `j`.
pub open spec fn is_cov_matrix(m: Seq<Vec<Ratio>>, x: Seq<Seq<int>>, r: Seq<Seq<int>>, n: int, j: int, d: int) -> bool {
    &&& m.len() == d
    &&& forall|a: int| 0 <= a < d ==> is_cov_row((#[trigger] m[a])@, x, r, n, j, a, d)
}

/// `w` is the mixing weight of component `j` among `k`.
pub open spec fn is_weight(w: Ratio, r: Seq<Seq<int>>, n: int, j: int, k: int) -> bool {
    w.num == total(r, n, j) && w.den == grand_total(r, n, k)
}

/// `e` is the M-step estimate of `n` observations `x` in `d` dimensions under the
/// weights `r` of `k` components.
pub open spec fn describes(e: Estimate, x: Seq<Seq<int>>, r: Seq<Seq<int>>, n: int, d: int, k: int) -> bool {
    &&& e.means@.len() == k
    &&& e.covariances@.len() == k
    &&& e.weights@.len() == k
    &&& forall|j: int| 0 <= j < k ==> is_mean_row((#[trigger] e.means@[j])@, x, r, n, j, d)
    &&& forall|j: int| 0 <= j < k ==> is_cov_matrix((#[trigger] e.covariances@[j])@, x, r, n, j, d)
    &&& forall|j: int| 0 <= j < k ==> is_weight(#[trigger] e.weights@[j], r, n, j, k)
}

/// Number of coordinates of the first row of `m`, or zero when there is none.
pub open spec fn first_len<T>(m: Seq<Vec<T>>) -> nat {
    if m.len() > 0 {
        m[0]@.len()
    } else {
        0
    }
}

/// The error that `maximize_exact` reports for the given inputs, if any.
pub open spec fn input_error(data: Seq<Vec<i32>>, resp: Seq<Vec<u16>>) -> Option<ShapeError> {
    let d = first_len(data);
    let k = first_len(resp);
    match shape_error(data.len() as usize, d as usize, resp.len() as usize, k as usize) {
        Some(e) => Some(e),
        None => if exists|i: int| 0 <= i < data.len() && (#[trigger] data[i])@.len() != d {
            Some(ShapeError::RaggedData)
        } else if exists|i: int| 0 <= i < resp.len() && (#[trigger] resp[i])@.len() != k {
            Some(ShapeError::RaggedResponsibilities)
        } else {
            None
        },
    }
}

/// Builds the mean of component `j`, whose total is `t`.
fn mean_row(data: &Vec<Vec<i32>>, resp: &Vec<Vec<u16>>, j: usize, t: i128, d: usize, Ghost(k): Ghost<int>) -> (row: Vec<Ratio>)
    requires
        resp@.len() <= MAX_OBSERVATIONS,
        well_formed(observations(data@), memberships(resp@), resp@.len() as int, d as int, k),
        j < k,
        t == total(memberships(resp@), resp@.len() as int, j as int),
    ensures
        is_mean_row(row@, observations(data@), memberships(resp@), resp@.len() as int, j as int, d as int),
{
    let mut row: Vec<Ratio> = Vec::new();
    let mut a: usize = 0;
    while a < d
        invariant
            resp@.len() <= MAX_OBSERVATIONS,
            well_formed(observations(data@), memberships(resp@), resp@.len() as int, d as int, k),
            j < k,
            t == total(memberships(resp@), resp@.len() as int, j as int),
            a <= d,
            row@.len() == a,
            forall|aa: int| 0 <= aa < a ==> (#[trigger] row@[aa]).num == moment1(observations(data@), memberships(resp@), resp@.len() as int, j as int, aa) && row@[aa].den == t,
        decreases d - a,
    {
        let s = first_moment(data, resp, j, a, Ghost(d as int), Ghost(k));
        row.push(Ratio { num: s, den: t });
        a = a + 1;
    }
    row
}

/// A weighted coordinate sum over `n` observations is bounded by `n` times the
/// largest term.
proof fn lemma_moment1_bound(x: Seq<Seq<int>>, r: Seq<Seq<int>>, n: int, j: int, a: int, d: int, k: int)
    requires
        well_formed(x, r, n, d, k),
        0 <= n,
        0 <= j < k,
        0 <= a < d,
    ensures
        -(n * term1_bound()) <= moment1(x, r, n, j, a) <= n * term1_bound(),
    decreases n,
{
    if n > 0 {
        let x1 = x.take(n - 1);
        let r1 = r.take(n - 1);
        lemma_moment1_prefix(x, r, n - 1, j, a);
        lemma_moment1_bound(x1, r1, n - 1, j, a, d, k);
        let rv = r[n - 1][j];
        let xv = x[n - 1][a];
        assert(-140735340871680 <= rv * xv <= 140735340871680) by (nonlinear_arith)
            requires
                0 <= rv <= 65535,
                -2147483648 <= xv <= 2147483648,
        ;
    }
}

/// A weighted coordinate sum over a prefix depends on the prefix alone.
proof fn lemma_moment1_prefix(x: Seq<Seq<int>>, r: Seq<Seq<int>>, m: int, j: int, a: int)
    requires
        0 <= m <= x.len(),
        m <= r.len(),
    ensures
        moment1(x.take(m), r.take(m), m, j, a) == moment1(x, r, m, j, a),
    decreases m,
{
    if m > 0 {
        lemma_moment1_prefix(x, r, m - 1, j, a);
        lemma_moment1_prefix(x.take(m), r.take(m), m - 1, j, a);
        assert(x.take(m).take(m - 1) == x.take(m - 1));
        assert(r.take(m).take(m - 1) == r.take(m - 1));
    }
}

/// |u * v| <= bu * bv when |u| <= bu and |v| <= bv.
proof fn lemma_product_bound(u: int, v: int, bu: int, bv: int)
    requires
        -bu <= u <= bu,
        -bv <= v <= bv,
    ensures
        -(bu * bv) <= u * v <= bu * bv,
{
    assert(-(bu * bv) <= u * v <= bu * bv) by (nonlinear_arith)
        requires
            -bu <= u <= bu,
            -bv <= v <= bv,
    ;
}

/// Builds the covariance matrix of component `j`, whose total is `t` and whose
/// weighted coordinate sums are `sums`.
fn cov_matrix(data: &Vec<Vec<i32>>, resp: &Vec<Vec<u16>>, j: usize, t: i128, sums: &Vec<Ratio>, d: usize, Ghost(k): Ghost<int>) -> (m: Vec<Vec<Ratio>>)
    requires
        resp@.len() <= MAX_OBSERVATIONS,
        well_formed(observations(data@), memberships(resp@), resp@.len() as int, d as int, k),
        j < k,
        t == total(memberships(resp@), resp@.len() as int, j as int),
        0 <= t <= resp@.len() * resp_bound(),
        is_mean_row(sums@, observations(data@), memberships(resp@), resp@.len() as int, j as int, d as int),
    ensures
        is_cov_matrix(m@, observations(data@), memberships(resp@), resp@.len() as int, j as int, d as int),
{
    let ghost x = observations(data@);
    let ghost r = memberships(resp@);
    let ghost n = resp@.len() as int;
    let mut m: Vec<Vec<Ratio>> = Vec::new();
    let mut a: usize = 0;
    while a < d
        invariant
            n == resp@.len() <= MAX_OBSERVATIONS,
            x == observations(data@),
            r == memberships(resp@),
            well_formed(x, r, n, d as int, k),
            j < k,
            t == total(r, n, j as int),
            0 <= t <= n * resp_bound(),
            is_mean_row(sums@, x, r, n, j as int, d as int),
            a <= d,
            m@.len() == a,
            forall|aa: int| 0 <= aa < a ==> is_cov_row((#[trigger] m@[aa])@, x, r, n, j as int, aa, d as int),
        decreases d - a,
    {
        let mut row: Vec<Ratio> = Vec::new();
        let mut b: usize = 0;
        while b < d
            invariant
                n == resp@.len() <= MAX_OBSERVATIONS,
                x == observations(data@),
                r == memberships(resp@),
                well_formed(x, r, n, d as int, k),
                j < k,
                t == total(r, n, j as int),
                0 <= t <= n * resp_bound(),
                is_mean_row(sums@, x, r, n, j as int, d as int),
                a < d,
                b <= d,
                row@.len() == b,
                forall|bb: int| 0 <= bb < b ==> (#[trigger] row@[bb]).num == cov_num(x, r, n, j as int, a as int, bb) && row@[bb].den == t * t,
            decreases d - b,
        {
            let q = second_moment(data, resp, j, a, b, Ghost(d as int), Ghost(k));
            let sa = sums[a].num;
            let sb = sums[b].num;
            proof {
                lemma_moment1_bound(x, r, n, j as int, a as int, d as int, k);
                lemma_moment1_bound(x, r, n, j as int, b as int, d as int, k);
                lemma_product_bound(t as int, q as int, 4294901760, 19806738397111180741092311040);
                lemma_product_bound(sa as int, sb as int, 9223231299366420480, 9223231299366420480);
                lemma_product_bound(t as int, t as int, 4294901760, 4294901760);
            }
            row.push(Ratio { num: t * q - sa * sb, den: t * t });
            b = b + 1;
        }
        m.push(row);
        a = a + 1;
    }
    m
}

/// The M-step in exact arithmetic: from `n` observations in `d` dimensions
/// (`data`, one row per observation) and their responsibility weights for `k`
/// components (`responsibilities`, one row per observation), computes each
/// component's weighted mean, weighted covariance and mixing weight.
///
/// A component whose weights are all zero gets denominators of zero: its mean
/// and covariance are undefined, and so are all weights when every component
/// is empty.
pub fn maximize_exact(data: &Vec<Vec<i32>>, responsibilities: &Vec<Vec<u16>>) -> (res: Result<Estimate, ShapeError>)
    requires
        data@.len() <= MAX_OBSERVATIONS,
    ensures
        match input_error(data@, responsibilities@) {
            Some(e) => res == Err::<Estimate, ShapeError>(e),
            None => match res {
                Ok(est) => describes(
                    est,
                    observations(data@),
                    memberships(responsibilities@),
                    data@.len() as int,
                    first_len(data@) as int,
                    first_len(responsibilities@) as int,
                ),
                Err(_) => false,
            },
        },
{
    let d0: usize = if data.len() > 0 { data[0].len() } else { 0 };
    let k0: usize = if responsibilities.len() > 0 { responsibilities[0].len() } else { 0 };
    let shape = match mstep_shape(data.len(), d0, responsibilities.len(), k0) {
        Ok(s) => s,
        Err(e) => return Err(e),
    };
    let d = shape.d;
    let k = shape.k;
    let mut i: usize = 0;
    while i < data.len()
        invariant
            i <= data@.len(),
            d == first_len(data@),
            k == first_len(responsibilities@),
            shape_error(data@.len() as usize, d, responsibilities@.len() as usize, k) is None,
            forall|ii: int| 0 <= ii < i ==> (#[trigger] data@[ii])@.len() == d,
        decreases data@.len() - i,
    {
        if data[i].len() != d {
            assert(data@[i as int]@.len() != first_len(data@));
            return Err(ShapeError::RaggedData);
        }
        i = i + 1;
    }
    let mut i: usize = 0;
    while i < responsibilities.len()
        invariant
            i <= responsibilities@.len(),
            d == first_len(data@),
            k == first_len(responsibilities@),
            shape_error(data@.len() as usize, d, responsibilities@.len() as usize, k) is None,
            forall|ii: int| 0 <= ii < data@.len() ==> (#[trigger] data@[ii])@.len() == d,
            forall|ii: int| 0 <= ii < i ==> (#[trigger] responsibilities@[ii])@.len() == k,
        decreases responsibilities@.len() - i,
    {
        if responsibilities[i].len() != k {
            assert(responsibilities@[i as int]@.len() != first_len(responsibilities@));
            return Err(ShapeError::RaggedResponsibilities);
        }
        i = i + 1;
    }
    let ghost x = observations(data@);
    let ghost r = memberships(responsibilities@);
    let ghost n = data@.len() as int;
    assert(input_error(data@, responsibilities@) is None);
    proof {
        lemma_views_well_formed(data@, responsibilities@, d as int, k as int);
    }
    let mut means: Vec<Vec<Ratio>> = Vec::new();
    let mut covariances: Vec<Vec<Vec<Ratio>>> = Vec::new();
    let mut totals: Vec<i128> = Vec::new();
    let mut grand: i128 = 0;
    let mut j: usize = 0;
    while j < k
        invariant
            n == data@.len() == responsibilities@.len() <= MAX_OBSERVATIONS,
            x == observations(data@),
            r == memberships(responsibilities@),
            well_formed(x, r, n, d as int, k as int),
            forall|ii: int| 0 <= ii < n ==> (#[trigger] responsibilities@[ii])@.len() == k,
            j <= k,
            means@.len() == j,
            covariances@.len() == j,
            totals@.len() == j,
            forall|jj: int| 0 <= jj < j ==> (#[trigger] totals@[jj]) == total(r, n, jj),
            forall|jj: int| 0 <= jj < j ==> is_mean_row((#[trigger] means@[jj])@, x, r, n, jj, d as int),
            forall|jj: int| 0 <= jj < j ==> is_cov_matrix((#[trigger] covariances@[jj])@, x, r, n, jj, d as int),
            grand == grand_total(r, n, j as int),
            0 <= grand <= j * 4294901760,
        decreases k - j,
    {
        let t = component_total(responsibilities, j, Ghost(k as int));
        let row = mean_row(data, responsibilities, j, t, d, Ghost(k as int));
        let m = cov_matrix(data, responsibilities, j, t, &row, d, Ghost(k as int));
        means.push(row);
        covariances.push(m);
        totals.push(t);
        grand = grand + t;
        j = j + 1;
    }
    let mut weights: Vec<Ratio> = Vec::new();
    let mut j: usize = 0;
    while j < k
        invariant
            totals@.len() == k,
            forall|jj: int| 0 <= jj < k ==> (#[trigger] totals@[jj]) == total(r, n, jj),
            grand == grand_total(r, n, k as int),
            j <= k,
            weights@.len() == j,
            forall|jj: int| 0 <= jj < j ==> is_weight(#[trigger] weights@[jj], r, n, jj, k as int),
        decreases k - j,
    {
        weights.push(Ratio { num: totals[j], den: grand });
        j = j + 1;
    }
    let est = Estimate { means, covariances, weights };
    assert(describes(est, x, r, n, d as int, k as int));
    Ok(est)
}

} // verus!
