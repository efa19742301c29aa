//! How far rounding can carry the solution of a quadratic and the point it
//! gives from their exact values. Every quantity is an integer that counts
//! units of `1 / one`, or of its square where two are multiplied.

use crate::scalar::magnitude;
use vstd::prelude::*;

verus! {

/// The residual of a quadratic whose coefficients and root were rounded:
/// when `hh` and `ac` are `h * h / one` and `a * c / one` rounded toward
/// zero, `root` is the integer square root of `(hh - ac) * one`, and `t` is
/// `(-h - root) * one / a` rounded toward zero, then `t` solves
/// `a t^2 + 2 h t + c = 0` up to the bound stated, all in units of `1 / one`.
pub proof fn lemma_quadratic_residual(
    a: int,
    h: int,
    c: int,
    hh: int,
    ac: int,
    d: int,
    root: int,
    t: int,
    one: int,
)
    requires
        one > 0,
        a > 0,
        0 <= h * h - hh * one < one,
        -one < a * c - ac * one < one,
        d == hh - ac,
        0 <= root,
        root * root <= d * one < (root + 1) * (root + 1),
        -a < (-h - root) * one - t * a < a,
    ensures
        ({
            let bound = one * one * (2 * one + 2 * root) + 2 * root * a * one + a * a;
            let residual = a * t * t + 2 * h * t * one + c * one * one;
            -bound <= a * residual <= bound
        }),
{
    let rho = (-h - root) * one - t * a;
    let w = t * a + h * one;
    assert(w == -(root * one + rho)) by (nonlinear_arith)
        requires
            rho == (-h - root) * one - t * a,
            w == t * a + h * one,
    ;
    let residual = a * t * t + 2 * h * t * one + c * one * one;
    let ta = t * a;
    let ho = h * one;
    assert(w * w == ta * ta + 2 * (ta * ho) + ho * ho) by (nonlinear_arith)
        requires
            w == ta + ho,
    ;
    assert(ta * ta == a * (a * t * t)) by (nonlinear_arith)
        requires
            ta == t * a,
    ;
    assert(ta * ho == a * (h * t * one)) by (nonlinear_arith)
        requires
            ta == t * a,
            ho == h * one,
    ;
    assert(ho * ho == h * h * one * one) by (nonlinear_arith)
        requires
            ho == h * one,
    ;
    assert(a * residual == a * (a * t * t) + 2 * (a * (h * t * one)) + a * c * one * one)
        by (nonlinear_arith)
        requires
            residual == a * t * t + 2 * h * t * one + c * one * one,
    ;
    assert(a * residual == w * w - h * h * one * one + a * c * one * one);
    let ro = root * one;
    assert(w * w == ro * ro + 2 * (ro * rho) + rho * rho) by (nonlinear_arith)
        requires
            w == -(ro + rho),
    ;
    assert(ro * ro == root * root * one * one) by (nonlinear_arith)
        requires
            ro == root * one,
    ;
    assert(2 * (ro * rho) == 2 * root * rho * one) by (nonlinear_arith)
        requires
            ro == root * one,
    ;
    assert(w * w == root * root * one * one + 2 * root * rho * one + rho * rho);
    let gap = root * root - (h * h - a * c);
    assert(d * one == hh * one - ac * one) by (nonlinear_arith)
        requires
            d == hh - ac,
    ;
    assert((root + 1) * (root + 1) == root * root + 2 * root + 1) by (nonlinear_arith);
    assert(-(2 * one + 2 * root) <= gap <= one);
    assert(gap * (one * one) == root * root * one * one - h * h * one * one + a * c * one * one)
        by (nonlinear_arith)
        requires
            gap == root * root - (h * h - a * c),
    ;
    assert(a * residual == gap * (one * one) + 2 * root * rho * one + rho * rho);
    assert(-(2 * one + 2 * root) * (one * one) <= gap * (one * one) <= (2 * one + 2 * root) * (one
        * one)) by (nonlinear_arith)
        requires
            -(2 * one + 2 * root) <= gap <= one,
            one > 0,
            root >= 0,
    ;
    assert(-(2 * root * a * one) <= 2 * root * rho * one <= 2 * root * a * one)
        by (nonlinear_arith)
        requires
            -a < rho < a,
            root >= 0,
            one > 0,
    ;
    assert(0 <= rho * rho <= a * a) by (nonlinear_arith)
        requires
            -a < rho < a,
    ;
    assert((2 * one + 2 * root) * (one * one) == one * one * (2 * one + 2 * root))
        by (nonlinear_arith);
    assert(-(2 * one + 2 * root) * (one * one) == -(one * one * (2 * one + 2 * root)))
        by (nonlinear_arith);
    let g = gap * (one * one);
    let m = 2 * root * rho * one;
    let q = rho * rho;
    let bound = one * one * (2 * one + 2 * root) + 2 * root * a * one + a * a;
    assert(a * residual == g + m + q);
    assert(-(one * one * (2 * one + 2 * root)) <= g <= one * one * (2 * one + 2 * root));
    assert(-(2 * root * a * one) <= m <= 2 * root * a * one);
    assert(0 <= q <= a * a);
    assert(-bound <= g + m + q <= bound);
}

/// The square of one coordinate of a rounded point: when `x` is `d * t /
/// one` rounded toward zero and `q` is `u + x`, then `one^2 q^2` differs
/// from the square of `u * one + d * t` by at most `one^2 (2 |q| + 1)`.
pub proof fn lemma_component_square(u: int, d: int, x: int, t: int, one: int)
    requires
        one > 0,
        -one < d * t - x * one < one,
    ensures
        ({
            let q = u + x;
            let exact = one * one * (u * u) + 2 * one * t * (u * d) + t * t * (d * d);
            let slack = one * one * (2 * magnitude(q) + 1);
            -slack <= one * one * (q * q) - exact <= slack
        }),
{
    let q = u + x;
    let e = d * t - x * one;
    let y = one * q + e;
    let exact = one * one * (u * u) + 2 * one * t * (u * d) + t * t * (d * d);
    let uo = u * one;
    let dt = d * t;
    assert(y == uo + dt) by (nonlinear_arith)
        requires
            y == one * (u + x) + (dt - x * one),
            uo == u * one,
    ;
    assert(y * y == uo * uo + 2 * (uo * dt) + dt * dt) by (nonlinear_arith)
        requires
            y == uo + dt,
    ;
    assert(uo * uo == one * one * (u * u)) by (nonlinear_arith)
        requires
            uo == u * one,
    ;
    assert(uo * dt == one * t * (u * d)) by (nonlinear_arith)
        requires
            uo == u * one,
            dt == d * t,
    ;
    assert(dt * dt == t * t * (d * d)) by (nonlinear_arith)
        requires
            dt == d * t,
    ;
    assert(2 * (one * t * (u * d)) == 2 * one * t * (u * d)) by (nonlinear_arith);
    assert(y * y == exact);
    let oq = one * q;
    assert(y * y == oq * oq + 2 * (oq * e) + e * e) by (nonlinear_arith)
        requires
            y == oq + e,
    ;
    assert(oq * oq == one * one * (q * q)) by (nonlinear_arith)
        requires
            oq == one * q,
    ;
    let m = magnitude(q);
    assert(-(one * one * m) <= oq * e <= one * one * m) by (nonlinear_arith)
        requires
            oq == one * q,
            -one < e < one,
            one > 0,
            m == magnitude(q),
            m >= 0,
            m == q || m == -q,
    ;
    assert(0 <= e * e <= one * one) by (nonlinear_arith)
        requires
            -one < e < one,
    ;
    assert(one * one * (2 * m + 1) == 2 * (one * one * m) + one * one) by (nonlinear_arith);
}

/// A factor distributes over a sum of three.
pub proof fn lemma_distribute(k: int, a: int, b: int, c: int)
    ensures
        k * (a + b + c) == k * a + k * b + k * c,
{
    assert(k * (a + b + c) == k * a + k * b + k * c) by (nonlinear_arith);
}

/// The gap between a rounded point and a surface: `u` is the offset of the
/// ray's origin from the center, `d` the direction, `x` the products
/// `d * t / one` rounded toward zero, and `a`, `h`, `c` are `d . d`,
/// `u . d` and `u . u - rr`, each divided by `one` and rounded through at
/// most three roundings. Then the squared distance of the point `u + x`
/// from the center, less `rr`, times `one`, differs from the residual of
/// the quadratic at `t` by at most the slack stated.
pub proof fn lemma_surface_gap(
    u: (int, int, int),
    d: (int, int, int),
    x: (int, int, int),
    t: int,
    a: int,
    h: int,
    c: int,
    rr: int,
    one: int,
)
    requires
        one > 0,
        -one < d.0 * t - x.0 * one < one,
        -one < d.1 * t - x.1 * one < one,
        -one < d.2 * t - x.2 * one < one,
        0 <= (d.0 * d.0 + d.1 * d.1 + d.2 * d.2) - a * one < 3 * one,
        -3 * one < (u.0 * d.0 + u.1 * d.1 + u.2 * d.2) - h * one < 3 * one,
        -one < (u.0 * u.0 + u.1 * u.1 + u.2 * u.2) - rr - c * one < 3 * one,
    ensures
        ({
            let q = (u.0 + x.0, u.1 + x.1, u.2 + x.2);
            let gap = q.0 * q.0 + q.1 * q.1 + q.2 * q.2 - rr;
            let residual = a * t * t + 2 * h * t * one + c * one * one;
            let reach = magnitude(q.0) + magnitude(q.1) + magnitude(q.2);
            let slack = one * (2 * reach + 3) + 3 * one * one + 6 * one * magnitude(t) + 3 * t
                * t;
            -slack <= one * gap - residual <= slack
        }),
{
    let q = (u.0 + x.0, u.1 + x.1, u.2 + x.2);
    let gap = q.0 * q.0 + q.1 * q.1 + q.2 * q.2 - rr;
    let residual = a * t * t + 2 * h * t * one + c * one * one;
    let reach = magnitude(q.0) + magnitude(q.1) + magnitude(q.2);
    let slack = one * (2 * reach + 3) + 3 * one * one + 6 * one * magnitude(t) + 3 * t * t;
    lemma_component_square(u.0, d.0, x.0, t, one);
    lemma_component_square(u.1, d.1, x.1, t, one);
    lemma_component_square(u.2, d.2, x.2, t, one);
    let oo = one * one;
    let su = u.0 * u.0 + u.1 * u.1 + u.2 * u.2;
    let sud = u.0 * d.0 + u.1 * d.1 + u.2 * d.2;
    let sd = d.0 * d.0 + d.1 * d.1 + d.2 * d.2;
    let e0 = oo * (u.0 * u.0) + 2 * one * t * (u.0 * d.0) + t * t * (d.0 * d.0);
    let e1 = oo * (u.1 * u.1) + 2 * one * t * (u.1 * d.1) + t * t * (d.1 * d.1);
    let e2 = oo * (u.2 * u.2) + 2 * one * t * (u.2 * d.2) + t * t * (d.2 * d.2);
    let exact = oo * su + 2 * one * t * sud + t * t * sd;
    let k = 2 * one * t;
    let tt = t * t;
    lemma_distribute(oo, u.0 * u.0, u.1 * u.1, u.2 * u.2);
    lemma_distribute(k, u.0 * d.0, u.1 * d.1, u.2 * d.2);
    lemma_distribute(tt, d.0 * d.0, d.1 * d.1, d.2 * d.2);
    assert(e0 + e1 + e2 == exact);
    let sq = q.0 * q.0 + q.1 * q.1 + q.2 * q.2;
    assert(oo * sq == oo * (q.0 * q.0) + oo * (q.1 * q.1) + oo * (q.2 * q.2))
        by (nonlinear_arith)
        requires
            sq == q.0 * q.0 + q.1 * q.1 + q.2 * q.2,
    ;
    assert(oo * (2 * magnitude(q.0) + 1) + oo * (2 * magnitude(q.1) + 1) + oo * (2 * magnitude(
        q.2,
    ) + 1) == oo * (2 * reach + 3)) by (nonlinear_arith)
        requires
            reach == magnitude(q.0) + magnitude(q.1) + magnitude(q.2),
    ;
    assert(-(oo * (2 * reach + 3)) <= oo * sq - exact <= oo * (2 * reach + 3));
    let alpha = sd - a * one;
    let beta = sud - h * one;
    let gamma = su - rr - c * one;
    lemma_distribute(oo, c * one, gamma, rr);
    lemma_distribute(k, h * one, beta, 0);
    lemma_distribute(tt, a * one, alpha, 0);
    lemma_distribute(one, a * t * t, 2 * h * t * one, c * one * one);
    assert(oo * (c * one) == one * (c * one * one)) by (nonlinear_arith)
        requires
            oo == one * one,
    ;
    assert(k * (h * one) == one * (2 * h * t * one)) by (nonlinear_arith)
        requires
            k == 2 * one * t,
    ;
    assert(tt * (a * one) == one * (a * t * t)) by (nonlinear_arith)
        requires
            tt == t * t,
    ;
    assert(su == c * one + gamma + rr);
    assert(sud == h * one + beta + 0);
    assert(sd == a * one + alpha + 0);
    assert(k * 0 == 0 && tt * 0 == 0) by (nonlinear_arith);
    assert(exact - oo * rr == one * residual + oo * gamma + 2 * one * t * beta + t * t * alpha);
    let mt = magnitude(t);
    assert(-(3 * one * oo) <= oo * gamma <= 3 * one * oo) by (nonlinear_arith)
        requires
            -one < gamma < 3 * one,
            oo == one * one,
            one > 0,
    ;
    assert(-(6 * oo * mt) <= 2 * one * t * beta <= 6 * oo * mt) by (nonlinear_arith)
        requires
            -3 * one < beta < 3 * one,
            oo == one * one,
            one > 0,
            mt >= 0,
            mt == t || mt == -t,
    ;
    assert(0 <= t * t * alpha <= 3 * one * (t * t)) by (nonlinear_arith)
        requires
            0 <= alpha < 3 * one,
            one > 0,
    ;
    assert(oo * gap == oo * sq - oo * rr) by (nonlinear_arith)
        requires
            gap == sq - rr,
    ;
    let whole = oo * (2 * reach + 3) + 3 * one * oo + 6 * oo * mt + 3 * one * (t * t);
    assert(-whole <= oo * gap - one * residual <= whole);
    assert(whole == one * slack) by (nonlinear_arith)
        requires
            whole == oo * (2 * reach + 3) + 3 * one * oo + 6 * oo * mt + 3 * one * (t * t),
            slack == one * (2 * reach + 3) + 3 * one * one + 6 * one * mt + 3 * t * t,
            oo == one * one,
    ;
    assert(oo * gap - one * residual == one * (one * gap - residual)) by (nonlinear_arith)
        requires
            oo == one * one,
    ;
    assert(-slack <= one * gap - residual <= slack) by (nonlinear_arith)
        requires
            -(one * slack) <= one * (one * gap - residual) <= one * slack,
            one > 0,
    ;
}

/// One coordinate of a vector divided by its rounded length `n`: when `u`
/// is `l * one / n` rounded toward zero and `l` is at most `one` in
/// magnitude, the square of `u * n` differs from that of `l * one` by at
/// most `2 one^2 n + n^2`.
pub proof fn lemma_component_rescaled(l: int, u: int, n: int, one: int)
    requires
        one > 0,
        n > 0,
        -one <= l <= one,
        -n < l * one - u * n < n,
    ensures
        -(2 * one * one * n + n * n) <= (u * u) * (n * n) - (l * l) * (one * one) <= 2 * one * one
            * n + n * n,
{
    let rho = l * one - u * n;
    let w = u * n;
    let lo = l * one;
    assert(w * w == (u * u) * (n * n)) by (nonlinear_arith)
        requires
            w == u * n,
    ;
    assert(lo * lo == (l * l) * (one * one)) by (nonlinear_arith)
        requires
            lo == l * one,
    ;
    assert(w * w == lo * lo - 2 * (lo * rho) + rho * rho) by (nonlinear_arith)
        requires
            w == lo - rho,
    ;
    assert(-(one * one * n) <= lo * rho <= one * one * n) by (nonlinear_arith)
        requires
            lo == l * one,
            -one <= l <= one,
            -n < rho < n,
            one > 0,
            n > 0,
    ;
    assert(0 <= rho * rho <= n * n) by (nonlinear_arith)
        requires
            -n < rho < n,
    ;
    assert(2 * one * one * n == 2 * (one * one * n)) by (nonlinear_arith);
}

/// The length of a vector divided by its rounded length: `l` has no
/// component above `one` in magnitude, `sq` is its squared length divided
/// by `one` through three roundings, `n` at least `one` is the integer
/// square root of `sq * one`, and `u` holds the components `l * one / n`
/// rounded toward zero. Then the squared length of `u` differs from
/// `one^2` by at most `12 one`.
pub proof fn lemma_rescaled_length(
    l: (int, int, int),
    u: (int, int, int),
    sq: int,
    n: int,
    one: int,
)
    requires
        one >= 3,
        n >= one,
        -one <= l.0 <= one,
        -one <= l.1 <= one,
        -one <= l.2 <= one,
        0 <= (l.0 * l.0 + l.1 * l.1 + l.2 * l.2) - sq * one < 3 * one,
        n * n <= sq * one < (n + 1) * (n + 1),
        -n < l.0 * one - u.0 * n < n,
        -n < l.1 * one - u.1 * n < n,
        -n < l.2 * one - u.2 * n < n,
    ensures
        -(12 * one) <= (u.0 * u.0 + u.1 * u.1 + u.2 * u.2) - one * one <= 12 * one,
{
    lemma_component_rescaled(l.0, u.0, n, one);
    lemma_component_rescaled(l.1, u.1, n, one);
    lemma_component_rescaled(l.2, u.2, n, one);
    let nn = n * n;
    let oo = one * one;
    let big = u.0 * u.0 + u.1 * u.1 + u.2 * u.2;
    let exact = l.0 * l.0 + l.1 * l.1 + l.2 * l.2;
    lemma_distribute(nn, u.0 * u.0, u.1 * u.1, u.2 * u.2);
    lemma_distribute(oo, l.0 * l.0, l.1 * l.1, l.2 * l.2);
    assert((u.0 * u.0) * nn == nn * (u.0 * u.0) && (u.1 * u.1) * nn == nn * (u.1 * u.1) && (u.2
        * u.2) * nn == nn * (u.2 * u.2)) by (nonlinear_arith);
    assert((l.0 * l.0) * oo == oo * (l.0 * l.0) && (l.1 * l.1) * oo == oo * (l.1 * l.1) && (l.2
        * l.2) * oo == oo * (l.2 * l.2)) by (nonlinear_arith);
    let first = 3 * (2 * one * one * n + n * n);
    assert(-first <= nn * big - oo * exact <= first);
    assert((n + 1) * (n + 1) == nn + 2 * n + 1) by (nonlinear_arith)
        requires
            nn == n * n,
    ;
    let over = exact - nn;
    assert(0 <= over <= 2 * n + 3 * one);
    assert(0 <= oo * over <= oo * (2 * n + 3 * one)) by (nonlinear_arith)
        requires
            0 <= over <= 2 * n + 3 * one,
            oo == one * one,
    ;
    assert(oo * exact == oo * nn + oo * over) by (nonlinear_arith)
        requires
            over == exact - nn,
    ;
    let whole = first + oo * (2 * n + 3 * one);
    assert(-whole <= nn * big - oo * nn <= whole);
    let on = one * nn;
    assert(oo * n <= on && oo * one <= on && 3 * nn <= on && nn > 0) by (nonlinear_arith)
        requires
            oo == one * one,
            nn == n * n,
            on == one * nn,
            n >= one,
            one >= 3,
    ;
    assert(2 * one * one * n == 2 * (oo * n)) by (nonlinear_arith)
        requires
            oo == one * one,
    ;
    assert(oo * (2 * n + 3 * one) == 2 * (oo * n) + 3 * (oo * one)) by (nonlinear_arith);
    assert((12 * one) * nn == 12 * on) by (nonlinear_arith)
        requires
            on == one * nn,
    ;
    assert(whole <= (12 * one) * nn);
    assert(nn * big - oo * nn == nn * (big - oo)) by (nonlinear_arith);
    assert(-(12 * one) <= big - oo <= 12 * one) by (nonlinear_arith)
        requires
            -((12 * one) * nn) <= nn * (big - oo) <= (12 * one) * nn,
            nn > 0,
    ;
}

/// A step along a leveled ray against the step along the ray itself: `dl`
/// is `d * one / m` and `t` is `tl * one / m`, both rounded toward zero,
/// and `x` and `xl` are the steps `d * t / one` and `dl * tl / one`, rounded
/// toward zero. Then the two steps differ by less than
/// `(|tl| + |d|) / one + 2`.
pub proof fn lemma_step_moved(
    d: int,
    dl: int,
    t: int,
    tl: int,
    m: int,
    x: int,
    xl: int,
    one: int,
)
    requires
        one > 0,
        m > 0,
        -m < d * one - dl * m < m,
        -m < tl * one - t * m < m,
        -one < d * t - x * one < one,
        -one < dl * tl - xl * one < one,
    ensures
        -(magnitude(tl) + magnitude(d) + 2 * one) < (x - xl) * one < magnitude(tl) + magnitude(d)
            + 2 * one,
{
    let rho = d * one - dl * m;
    let sigma = tl * one - t * m;
    let apart = d * t - dl * tl;
    assert(apart * m == rho * tl - d * sigma) by (nonlinear_arith)
        requires
            rho == d * one - dl * m,
            sigma == tl * one - t * m,
            apart == d * t - dl * tl,
    ;
    let mt = magnitude(tl);
    let md = magnitude(d);
    assert(-(m * mt) <= rho * tl <= m * mt) by (nonlinear_arith)
        requires
            -m < rho < m,
            mt >= 0,
            mt == tl || mt == -tl,
    ;
    assert(-(m * md) <= d * sigma <= m * md) by (nonlinear_arith)
        requires
            -m < sigma < m,
            md >= 0,
            md == d || md == -d,
    ;
    assert(-(mt + md) <= apart <= mt + md) by (nonlinear_arith)
        requires
            -(m * mt) - m * md <= apart * m <= m * mt + m * md,
            m > 0,
    ;
    assert((x - xl) * one == x * one - xl * one) by (nonlinear_arith);
}

/// The gap of a point that was moved: when each coordinate of `q` is moved
/// by at most `reach` in magnitude, the sum of the squares changes by at
/// most `2 reach (|q.0| + |q.1| + |q.2|) + 3 reach^2`.
pub proof fn lemma_moved_gap(q: (int, int, int), moved: (int, int, int), reach: int)
    requires
        -reach <= moved.0 <= reach,
        -reach <= moved.1 <= reach,
        -reach <= moved.2 <= reach,
    ensures
        ({
            let p = (q.0 + moved.0, q.1 + moved.1, q.2 + moved.2);
            let before = q.0 * q.0 + q.1 * q.1 + q.2 * q.2;
            let after = p.0 * p.0 + p.1 * p.1 + p.2 * p.2;
            let slack = 2 * reach * (magnitude(q.0) + magnitude(q.1) + magnitude(q.2)) + 3 * reach
                * reach;
            -slack <= after - before <= slack
        }),
{
    lemma_moved_square(q.0, moved.0, reach);
    lemma_moved_square(q.1, moved.1, reach);
    lemma_moved_square(q.2, moved.2, reach);
    lemma_distribute(2 * reach, magnitude(q.0), magnitude(q.1), magnitude(q.2));
    assert(3 * reach * reach == reach * reach + reach * reach + reach * reach)
        by (nonlinear_arith);
}

/// The square of a number moved by at most `reach` changes by at most
/// `2 reach |q| + reach^2`.
pub proof fn lemma_moved_square(q: int, moved: int, reach: int)
    requires
        -reach <= moved <= reach,
    ensures
        -(2 * reach * magnitude(q) + reach * reach) <= (q + moved) * (q + moved) - q * q <= 2
            * reach * magnitude(q) + reach * reach,
{
    let mq = magnitude(q);
    assert((q + moved) * (q + moved) - q * q == 2 * (q * moved) + moved * moved)
        by (nonlinear_arith);
    assert(-(reach * mq) <= q * moved <= reach * mq) by (nonlinear_arith)
        requires
            -reach <= moved <= reach,
            mq >= 0,
            mq == q || mq == -q,
    ;
    assert(0 <= moved * moved <= reach * reach) by (nonlinear_arith)
        requires
            -reach <= moved <= reach,
    ;
    assert(2 * reach * mq == 2 * (reach * mq)) by (nonlinear_arith);
}

} // verus!
