//! How far rounding carries a cubic between two points. All numbers are in
//! units, of which `b` make one; a result that is rounded differs from the
//! exact one by `g` at most.

use vstd::prelude::*;

verus! {

/// Whether two numbers are no further apart than a third.
pub open spec fn near(x: int, y: int, e: int) -> bool {
    -e <= x - y <= e
}

/// Numbers that are near stay near when both are multiplied.
proof fn lemma_near_times(x: int, y: int, e: int, z: int, c: int)
    requires
        near(x, y, e),
        -c <= z <= c,
    ensures
        near(x * z, y * z, e * c),
{
    assert((x - y) * z <= e * c && (x - y) * z >= -(e * c)) by (nonlinear_arith)
        requires
            -e <= x - y <= e,
            -c <= z <= c,
    ;
    assert((x - y) * z == x * z - y * z) by (nonlinear_arith);
}

/// The four polynomials by which the ends of a segment, and the tangents
/// there, are weighted at `t`.
pub open spec fn first_weight(t: int, b: int) -> int {
    2 * (t * t * t) - 3 * (t * t * b) + b * b * b
}

pub open spec fn first_tangent_weight(t: int, b: int) -> int {
    t * t * t - 2 * (t * t * b) + t * b * b
}

pub open spec fn second_weight(t: int, b: int) -> int {
    3 * (t * t * b) - 2 * (t * t * t)
}

pub open spec fn second_tangent_weight(t: int, b: int) -> int {
    t * t * t - t * t * b
}

/// The sizes of the weights.
proof fn lemma_weights(t: int, b: int)
    requires
        0 <= t <= b,
    ensures
        0 <= 4 * first_tangent_weight(t, b) <= b * b * b,
        -(b * b * b) <= 4 * second_tangent_weight(t, b) <= 0,
        second_weight(t, b) + 3 * first_tangent_weight(t, b) <= b * b * b,
        second_weight(t, b) + 3 * second_tangent_weight(t, b) >= 0,
        first_weight(t, b) + second_weight(t, b) == b * b * b,
{
    let u = b - t;
    let tt = t * t;
    let uu = u * u;
    assert(first_tangent_weight(t, b) == t * uu) by (nonlinear_arith)
        requires
            uu == u * u,
            u == b - t,
    ;
    assert(second_tangent_weight(t, b) == -(tt * u)) by (nonlinear_arith)
        requires
            tt == t * t,
            u == b - t,
    ;
    assert(second_weight(t, b) + 3 * first_tangent_weight(t, b) == b * b * b - uu * u)
        by (nonlinear_arith)
        requires
            uu == u * u,
            u == b - t,
    ;
    assert(second_weight(t, b) + 3 * second_tangent_weight(t, b) == tt * t) by (nonlinear_arith)
        requires
            tt == t * t,
    ;
    assert(0 <= tt <= b * b) by (nonlinear_arith)
        requires
            tt == t * t,
            0 <= t <= b,
    ;
    assert(0 <= uu <= b * b) by (nonlinear_arith)
        requires
            uu == u * u,
            0 <= u <= b,
    ;
    let tu = t * u;
    let bb = b * b;
    assert(4 * tu <= bb) by (nonlinear_arith)
        requires
            tu == t * u,
            u == b - t,
            bb == b * b,
    ;
    assert(t * uu == tu * u && tt * u == tu * t) by (nonlinear_arith)
        requires
            tu == t * u,
            tt == t * t,
            uu == u * u,
    ;
    assert(tu >= 0) by (nonlinear_arith)
        requires
            tu == t * u,
            t >= 0,
            u >= 0,
    ;
    assert(0 <= 4 * (tu * u) <= b * b * b && 0 <= 4 * (tu * t) <= b * b * b) by (nonlinear_arith)
        requires
            0 <= tu,
            4 * tu <= bb,
            bb == b * b,
            0 <= u <= b,
            0 <= t <= b,
    ;
    assert(0 <= uu * u) by (nonlinear_arith)
        requires
            0 <= uu,
            0 <= u,
    ;
    assert(0 <= tt * t) by (nonlinear_arith)
        requires
            0 <= tt,
            0 <= t,
    ;
}

/// How far the cubic rises above its first end, scaled.
pub open spec fn rise(d: int, q0: int, q1: int, t: int, b: int) -> int {
    b * d * second_weight(t, b) + q0 * first_tangent_weight(t, b) + q1 * second_tangent_weight(t, b)
}

/// A cubic with tangents of at most three times its slope stays between its
/// ends.
proof fn lemma_stays(d: int, q0: int, q1: int, t: int, b: int, w: int)
    requires
        0 <= t <= b,
        0 <= d,
        0 <= w,
        0 <= q0 <= 3 * (b * d) + b * w,
        0 <= q1 <= 3 * (b * d) + b * w,
    ensures
        -(b * w * (b * b * b)) <= rise(d, q0, q1, t, b) <= b * d * (b * b * b) + b * w * (b * b * b),
{
    lemma_weights(t, b);
    let cube = b * b * b;
    let h01 = second_weight(t, b);
    let h10 = first_tangent_weight(t, b);
    let h11 = second_tangent_weight(t, b);
    let bd = b * d;
    let bw = b * w;
    assert(bd >= 0) by (nonlinear_arith)
        requires
            bd == b * d,
            b >= 0,
            d >= 0,
    ;
    assert(bw >= 0) by (nonlinear_arith)
        requires
            bw == b * w,
            b >= 0,
            w >= 0,
    ;
    assert(0 <= q0 * h10 <= (3 * bd + bw) * h10) by (nonlinear_arith)
        requires
            0 <= q0 <= 3 * bd + bw,
            h10 >= 0,
    ;
    assert((3 * bd + bw) * h11 <= q1 * h11 <= 0) by (nonlinear_arith)
        requires
            0 <= q1 <= 3 * bd + bw,
            h11 <= 0,
    ;
    assert(bd * h01 + (3 * bd + bw) * h10 == bd * (h01 + 3 * h10) + bw * h10) by (nonlinear_arith);
    assert(bd * h01 + (3 * bd + bw) * h11 == bd * (h01 + 3 * h11) + bw * h11) by (nonlinear_arith);
    assert(bd * (h01 + 3 * h10) <= bd * cube) by (nonlinear_arith)
        requires
            bd >= 0,
            h01 + 3 * h10 <= cube,
    ;
    assert(bw * h10 <= bw * cube) by (nonlinear_arith)
        requires
            bw >= 0,
            h10 <= cube,
    ;
    assert(bd * (h01 + 3 * h11) >= 0) by (nonlinear_arith)
        requires
            bd >= 0,
            h01 + 3 * h11 >= 0,
    ;
    assert(bw * h11 >= -(bw * cube)) by (nonlinear_arith)
        requires
            bw >= 0,
            h11 >= -cube,
    ;
}

/// The squares and cubes that are rounded on the way.
proof fn lemma_powers(t: int, t2: int, t3: int, b: int, g: int)
    requires
        0 <= t <= b,
        0 <= g,
        near(t2 * b, t * t, g * b),
        near(t3 * b, t2 * t, g * b),
    ensures
        near(t2 * (b * b), t * t * b, g * (b * b)),
        near(t3 * (b * b), t * t * t, 2 * (g * (b * b))),
{
    let e = g * b;
    assert(e >= 0) by (nonlinear_arith)
        requires
            e == g * b,
            g >= 0,
            b >= 0,
    ;
    lemma_near_times(t2 * b, t * t, e, b, b);
    assert(t2 * b * b == t2 * (b * b)) by (nonlinear_arith);
    assert(e * b == g * (b * b)) by (nonlinear_arith)
        requires
            e == g * b,
    ;
    lemma_near_times(t3 * b, t2 * t, e, b, b);
    assert(t3 * b * b == t3 * (b * b)) by (nonlinear_arith);
    lemma_near_times(t2 * b, t * t, e, t, b);
    assert(t2 * b * t == t2 * t * b) by (nonlinear_arith);
}

/// The weights as they are computed.
pub struct Weights {
    pub h00: int,
    pub h10: int,
    pub h01: int,
    pub h11: int,
}

/// What is known of the weights as they are computed.
pub open spec fn weighed(h: Weights, t: int, t2: int, t3: int, b: int, g: int) -> bool {
    &&& near(t2 * b, t * t, g * b)
    &&& near(t3 * b, t2 * t, g * b)
    &&& near(h.h00, 2 * t3 - 3 * t2 + b, 4 * g)
    &&& near(h.h10, t3 - 2 * t2 + t, 3 * g)
    &&& near(h.h01, 3 * t2 - 2 * t3, 3 * g)
    &&& near(h.h11, t3 - t2, g)
}

/// The weights as they are computed are near the exact ones.
pub proof fn lemma_weighed(h: Weights, t: int, t2: int, t3: int, b: int, g: int)
    requires
        0 <= t <= b,
        0 <= g,
        weighed(h, t, t2, t3, b, g),
    ensures
        near(h.h00 * (b * b), first_weight(t, b), 11 * (g * (b * b))),
        near(h.h10 * (b * b), first_tangent_weight(t, b), 7 * (g * (b * b))),
        near(h.h01 * (b * b), second_weight(t, b), 10 * (g * (b * b))),
        near(h.h11 * (b * b), second_tangent_weight(t, b), 4 * (g * (b * b))),
{
    let bb = b * b;
    assert(bb >= 0) by (nonlinear_arith)
        requires
            bb == b * b,
    ;
    lemma_powers(t, t2, t3, b, g);
    lemma_near_times(h.h00, 2 * t3 - 3 * t2 + b, 4 * g, bb, bb);
    lemma_near_times(h.h10, t3 - 2 * t2 + t, 3 * g, bb, bb);
    lemma_near_times(h.h01, 3 * t2 - 2 * t3, 3 * g, bb, bb);
    lemma_near_times(h.h11, t3 - t2, g, bb, bb);
    assert((2 * t3 - 3 * t2 + b) * bb == 2 * (t3 * bb) - 3 * (t2 * bb) + b * b * b)
        by (nonlinear_arith)
        requires
            bb == b * b,
    ;
    assert((t3 - 2 * t2 + t) * bb == t3 * bb - 2 * (t2 * bb) + t * b * b) by (nonlinear_arith)
        requires
            bb == b * b,
    ;
    assert((3 * t2 - 2 * t3) * bb == 3 * (t2 * bb) - 2 * (t3 * bb)) by (nonlinear_arith);
    assert((t3 - t2) * bb == t3 * bb - t2 * bb) by (nonlinear_arith);
    assert(4 * g * bb == 4 * (g * bb)) by (nonlinear_arith);
    assert(3 * g * bb == 3 * (g * bb)) by (nonlinear_arith);
}

/// Numbers that are near when both are multiplied are near.
pub proof fn lemma_near_cancel(x: int, y: int, e: int, z: int)
    requires
        near(x * z, y * z, e * z),
        z > 0,
    ensures
        near(x, y, e),
{
    assert((x - y) * z == x * z - y * z) by (nonlinear_arith);
    assert(-e <= x - y <= e) by (nonlinear_arith)
        requires
            -(e * z) <= (x - y) * z <= e * z,
            z > 0,
    ;
}

/// How large the weights can be as they are computed.
pub proof fn lemma_weight_sizes(h: Weights, t: int, t2: int, t3: int, b: int, g: int)
    requires
        0 <= t <= b,
        0 < b,
        0 <= g,
        weighed(h, t, t2, t3, b, g),
    ensures
        -(11 * g) <= h.h00 <= b + 11 * g,
        -(28 * g) <= 4 * h.h10 <= b + 28 * g,
        -(10 * g) <= h.h01 <= b + 10 * g,
        -(b + 16 * g) <= 4 * h.h11 <= 16 * g,
{
    lemma_weighed(h, t, t2, t3, b, g);
    lemma_weights(t, b);
    let bb = b * b;
    let gb = g * bb;
    assert(bb > 0) by (nonlinear_arith)
        requires
            bb == b * b,
            b > 0,
    ;
    let cube = b * b * b;
    assert(cube == b * bb) by (nonlinear_arith)
        requires
            cube == b * b * b,
            bb == b * b,
    ;
    assert(4 * h.h10 * bb == 4 * (h.h10 * bb) && 4 * h.h11 * bb == 4 * (h.h11 * bb) && -b * bb
        == -(b * bb)) by (nonlinear_arith);
    lemma_held_between(h.h00, bb, 0, b, 11, g);
    lemma_held_between(4 * h.h10, bb, 0, b, 28, g);
    lemma_held_between(h.h01, bb, 0, b, 10, g);
    lemma_held_between(4 * h.h11, bb, -b, 0, 16, g);
}

proof fn lemma_held_between(h: int, bb: int, low: int, high: int, n: int, g: int)
    requires
        bb > 0,
        low * bb - n * (g * bb) <= h * bb <= high * bb + n * (g * bb),
    ensures
        low - n * g <= h <= high + n * g,
{
    assert(low - n * g <= h <= high + n * g) by (nonlinear_arith)
        requires
            bb > 0,
            low * bb - n * (g * bb) <= h * bb <= high * bb + n * (g * bb),
    ;
}

/// An end of a segment, weighted.
proof fn lemma_end_part(weight: int, exact: int, v: int, part: int, n: int, b: int, g: int)
    requires
        0 <= b,
        0 <= g,
        0 <= n,
        0 <= v <= b,
        near(weight * (b * b), exact, n * (g * (b * b))),
        near(part * b, weight * v, g * b),
    ensures
        near(part * (b * b * b * b), b * v * exact, (n + 1) * (g * (b * b * b * b))),
{
    let bb = b * b;
    let cube = b * b * b;
    let e = n * (g * bb);
    assert(bb >= 0) by (nonlinear_arith)
        requires
            bb == b * b,
    ;
    assert(cube >= 0) by (nonlinear_arith)
        requires
            cube == b * b * b,
            b >= 0,
    ;
    let bv = b * v;
    assert(0 <= bv <= bb) by (nonlinear_arith)
        requires
            bv == b * v,
            bb == b * b,
            0 <= v <= b,
    ;
    lemma_near_times(weight * bb, exact, e, bv, bb);
    lemma_near_times(part * b, weight * v, g * b, cube, cube);
    assert(part * b * cube == part * (b * b * b * b)) by (nonlinear_arith)
        requires
            cube == b * b * b,
    ;
    assert(weight * v * cube == weight * bb * bv) by (nonlinear_arith)
        requires
            cube == b * b * b,
            bb == b * b,
            bv == b * v,
    ;
    assert(g * b * cube == g * (b * b * b * b)) by (nonlinear_arith)
        requires
            cube == b * b * b,
    ;
    assert(e * bb == n * (g * (b * b * b * b))) by (nonlinear_arith)
        requires
            e == n * (g * bb),
            bb == b * b,
    ;
    assert((n + 1) * (g * (b * b * b * b)) == n * (g * (b * b * b * b)) + g * (b * b * b * b))
        by (nonlinear_arith);
    assert(exact * bv == b * v * exact) by (nonlinear_arith)
        requires
            bv == b * v,
    ;
}

/// A tangent of a segment, weighted.
proof fn lemma_tangent_part(weight: int, exact: int, q: int, part: int, n: int, b: int, g: int)
    requires
        0 <= b,
        0 <= g,
        0 <= n,
        -(4 * (b * b)) <= q <= 4 * (b * b),
        near(weight * (b * b), exact, n * (g * (b * b))),
        near(part * (b * b), weight * q, 3 * (g * (b * b))),
    ensures
        near(part * (b * b * b * b), q * exact, (4 * n + 3) * (g * (b * b * b * b))),
{
    let bb = b * b;
    let e = n * (g * bb);
    assert(bb >= 0) by (nonlinear_arith)
        requires
            bb == b * b,
    ;
    lemma_near_times(weight * bb, exact, e, q, 4 * bb);
    lemma_near_times(part * bb, weight * q, 3 * (g * bb), bb, bb);
    assert(part * bb * bb == part * (b * b * b * b)) by (nonlinear_arith)
        requires
            bb == b * b,
    ;
    assert(weight * q * bb == weight * bb * q) by (nonlinear_arith);
    assert(3 * (g * bb) * bb == 3 * (g * (b * b * b * b))) by (nonlinear_arith)
        requires
            bb == b * b,
    ;
    assert(e * (4 * bb) == 4 * n * (g * (b * b * b * b))) by (nonlinear_arith)
        requires
            e == n * (g * bb),
            bb == b * b,
    ;
    assert((4 * n + 3) * (g * (b * b * b * b)) == 4 * n * (g * (b * b * b * b)) + 3 * (g * (b * b
        * b * b))) by (nonlinear_arith);
    assert(exact * q == q * exact) by (nonlinear_arith);
}

/// Whether a tangent over an interval rises in the direction of the curve, and
/// at most three times as far, or a little more.
pub open spec fn is_limited(q: int, d: int, b: int, w: int) -> bool {
    if d >= 0 {
        0 <= q <= 3 * (b * d) + b * w
    } else {
        0 <= -q <= 3 * (b * -d) + b * w
    }
}

/// The parts of a cubic as they are computed.
pub struct Parts {
    pub first: int,
    pub first_tangent: int,
    pub second: int,
    pub second_tangent: int,
}

/// A limited tangent is at most four times the whole.
proof fn lemma_limited_size(q: int, d: int, b: int, w: int)
    requires
        -b <= d <= b,
        0 <= w <= b,
        is_limited(q, d, b, w),
    ensures
        -(4 * (b * b)) <= q <= 4 * (b * b),
{
    let size = if d >= 0 {
        d
    } else {
        -d
    };
    assert(3 * (b * size) + b * w <= 4 * (b * b)) by (nonlinear_arith)
        requires
            0 <= size <= b,
            0 <= w <= b,
    ;
}

/// What the parts are off adds up.
proof fn lemma_total(
    a0: int,
    e0: int,
    a1: int,
    e1: int,
    a2: int,
    e2: int,
    a3: int,
    e3: int,
    result: int,
    unit: int,
)
    requires
        near(a0, e0, 12 * unit),
        near(a1, e1, 31 * unit),
        near(a2, e2, 11 * unit),
        near(a3, e3, 19 * unit),
        near(result, a0 + a1 + a2 + a3, 3 * unit),
    ensures
        near(result, e0 + e1 + e2 + e3, 76 * unit),
{
}

/// A cubic with limited tangents is computed to lie between its ends, but for
/// what rounding adds.
pub proof fn lemma_between(
    v0: int,
    v1: int,
    q0: int,
    q1: int,
    t: int,
    t2: int,
    t3: int,
    h: Weights,
    p: Parts,
    result: int,
    b: int,
    g: int,
    w: int,
)
    requires
        0 <= t <= b,
        0 < g,
        w == 32 * g,
        b == 65536 * w,
        0 <= v0 <= b,
        0 <= v1 <= b,
        is_limited(q0, v1 - v0, b, w),
        is_limited(q1, v1 - v0, b, w),
        weighed(h, t, t2, t3, b, g),
        near(p.first * b, h.h00 * v0, g * b),
        near(p.first_tangent * (b * b), h.h10 * q0, 3 * (g * (b * b))),
        near(p.second * b, h.h01 * v1, g * b),
        near(p.second_tangent * (b * b), h.h11 * q1, 3 * (g * (b * b))),
        near(result, p.first + p.first_tangent + p.second + p.second_tangent, 3 * g),
    ensures
        near(
            result * (b * b * b * b),
            v0 * (b * b * b * b) + rise(v1 - v0, q0, q1, t, b),
            76 * (g * (b * b * b * b)),
        ),
        v0 <= v1 ==> v0 - 128 * g <= result <= v1 + 128 * g,
        v1 <= v0 ==> v1 - 128 * g <= result <= v0 + 128 * g,
{
    let d = v1 - v0;
    let four = b * b * b * b;
    let cube = b * b * b;
    let h00 = first_weight(t, b);
    let h10 = first_tangent_weight(t, b);
    let h01 = second_weight(t, b);
    let h11 = second_tangent_weight(t, b);
    lemma_weighed(h, t, t2, t3, b, g);
    lemma_weights(t, b);
    lemma_limited_size(q0, d, b, w);
    lemma_limited_size(q1, d, b, w);
    lemma_end_part(h.h00, h00, v0, p.first, 11, b, g);
    lemma_end_part(h.h01, h01, v1, p.second, 10, b, g);
    lemma_tangent_part(h.h10, h10, q0, p.first_tangent, 7, b, g);
    lemma_tangent_part(h.h11, h11, q1, p.second_tangent, 4, b, g);
    assert(four > 0) by (nonlinear_arith)
        requires
            four == b * b * b * b,
            b > 0,
    ;
    let sum = p.first + p.first_tangent + p.second + p.second_tangent;
    lemma_near_times(result, sum, 3 * g, four, four);
    assert(sum * four == p.first * four + p.first_tangent * four + p.second * four
        + p.second_tangent * four) by (nonlinear_arith)
        requires
            sum == p.first + p.first_tangent + p.second + p.second_tangent,
    ;
    assert(3 * g * four == 3 * (g * four)) by (nonlinear_arith);
    let r = rise(d, q0, q1, t, b);
    assert(b * v0 * h00 + b * v1 * h01 == v0 * four + b * d * h01) by (nonlinear_arith)
        requires
            h00 + h01 == b * b * b,
            d == v1 - v0,
            four == b * b * b * b,
    ;
    let gf = g * four;
    assert((11 + 1) * gf == 12 * gf) by (nonlinear_arith);
    assert((10 + 1) * gf == 11 * gf) by (nonlinear_arith);
    assert((4 * 7 + 3) * gf == 31 * gf) by (nonlinear_arith);
    assert((4 * 4 + 3) * gf == 19 * gf) by (nonlinear_arith);
    assert(near(p.first * four, b * v0 * h00, 12 * gf));
    assert(near(p.second * four, b * v1 * h01, 11 * gf));
    assert(near(p.first_tangent * four, q0 * h10, 31 * gf));
    assert(near(p.second_tangent * four, q1 * h11, 19 * gf));
    assert(r == b * d * h01 + q0 * h10 + q1 * h11);
    lemma_total(
        p.first * four,
        b * v0 * h00,
        p.first_tangent * four,
        q0 * h10,
        p.second * four,
        b * v1 * h01,
        p.second_tangent * four,
        q1 * h11,
        result * four,
        gf,
    );
    assert(near(result * four, v0 * four + r, 76 * gf));
    assert(b * w * cube == 32 * gf) by (nonlinear_arith)
        requires
            w == 32 * g,
            cube == b * b * b,
            four == b * b * b * b,
            gf == g * four,
    ;
    assert(b * d * cube == d * four) by (nonlinear_arith)
        requires
            cube == b * b * b,
            four == b * b * b * b,
    ;
    if d >= 0 {
        lemma_stays(d, q0, q1, t, b, w);
    } else {
        lemma_stays(-d, -q0, -q1, t, b, w);
        assert(rise(-d, -q0, -q1, t, b) == -r) by (nonlinear_arith)
            requires
                r == b * d * h01 + q0 * h10 + q1 * h11,
                rise(-d, -q0, -q1, t, b) == b * -d * h01 + -q0 * h10 + -q1 * h11,
        ;
        assert(b * -d * cube == -(d * four)) by (nonlinear_arith)
            requires
                b * d * cube == d * four,
        ;
    }
    let low = if d >= 0 {
        v0
    } else {
        v1
    };
    let high = if d >= 0 {
        v1
    } else {
        v0
    };
    assert(v0 * four + d * four == v1 * four) by (nonlinear_arith)
        requires
            d == v1 - v0,
    ;
    assert(low * four - 108 * gf <= result * four <= high * four + 108 * gf);
    assert(low - 108 * g <= result <= high + 108 * g) by (nonlinear_arith)
        requires
            low * four - 108 * gf <= result * four <= high * four + 108 * gf,
            gf == g * four,
            four > 0,
    ;
}

/// Where one weight, or two of them together, grow as `t` does.
proof fn lemma_weights_grow(t: int, u: int, b: int)
    requires
        0 <= t <= u <= b,
    ensures
        second_weight(t, b) <= second_weight(u, b),
        second_weight(t, b) + 3 * first_tangent_weight(t, b) <= second_weight(u, b) + 3
            * first_tangent_weight(u, b),
        second_weight(t, b) + 3 * second_tangent_weight(t, b) <= second_weight(u, b) + 3
            * second_tangent_weight(u, b),
        second_weight(t, b) + 3 * first_tangent_weight(t, b) + 3 * second_tangent_weight(t, b)
            <= second_weight(u, b) + 3 * first_tangent_weight(u, b) + 3 * second_tangent_weight(
            u,
            b,
        ),
{
    lemma_smooth_step_grows(t, u, b);
    lemma_cubes_grow(t, u);
    lemma_cubes_grow(b - u, b - t);
    lemma_cubes_grow(2 * t - b, 2 * u - b);
    lemma_rest_of_cube(t, b);
    lemma_rest_of_cube(u, b);
}

/// The sums of weights as cubes.
proof fn lemma_rest_of_cube(t: int, b: int)
    ensures
        second_weight(t, b) + 3 * second_tangent_weight(t, b) == t * t * t,
        second_weight(t, b) + 3 * first_tangent_weight(t, b) == b * b * b - (b - t) * (b - t) * (b
            - t),
        2 * (second_weight(t, b) + 3 * first_tangent_weight(t, b) + 3 * second_tangent_weight(
            t,
            b,
        )) == (2 * t - b) * (2 * t - b) * (2 * t - b) + b * b * b,
{
    assert((b - t) * (b - t) * (b - t) == b * b * b - 3 * (t * b * b) + 3 * (t * t * b) - t * t * t)
        by (nonlinear_arith);
    assert((2 * t - b) * (2 * t - b) * (2 * t - b) == 8 * (t * t * t) - 12 * (t * t * b) + 6 * (t
        * b * b) - b * b * b) by (nonlinear_arith);
}

proof fn lemma_cubes_grow(x: int, y: int)
    requires
        x <= y,
    ensures
        x * x * x <= y * y * y,
{
    let sum = x * x + x * y + y * y;
    assert(y * y * y - x * x * x == (y - x) * sum) by (nonlinear_arith)
        requires
            sum == x * x + x * y + y * y,
    ;
    assert(2 * sum == (x + y) * (x + y) + x * x + y * y) by (nonlinear_arith)
        requires
            sum == x * x + x * y + y * y,
    ;
    assert((x + y) * (x + y) >= 0 && x * x >= 0 && y * y >= 0) by (nonlinear_arith);
    assert((y - x) * sum >= 0) by (nonlinear_arith)
        requires
            y - x >= 0,
            sum >= 0,
    ;
}

proof fn lemma_smooth_step_grows(t: int, u: int, b: int)
    requires
        0 <= t <= u <= b,
    ensures
        second_weight(t, b) <= second_weight(u, b),
{
    let tt = t * t;
    let uu = u * u;
    let tu = t * u;
    let factor = 3 * (b * (u + t)) - 2 * (uu + tu + tt);
    assert(b * (u + t) >= uu + tt) by (nonlinear_arith)
        requires
            0 <= t <= b,
            0 <= u <= b,
            tt == t * t,
            uu == u * u,
    ;
    assert(2 * tu <= uu + tt) by (nonlinear_arith)
        requires
            tt == t * t,
            uu == u * u,
            tu == t * u,
    ;
    assert(second_weight(u, b) - second_weight(t, b) == (u - t) * factor) by (nonlinear_arith)
        requires
            factor == 3 * (b * (u + t)) - 2 * (uu + tu + tt),
            tt == t * t,
            uu == u * u,
            tu == t * u,
            second_weight(u, b) == 3 * (u * u * b) - 2 * (u * u * u),
            second_weight(t, b) == 3 * (t * t * b) - 2 * (t * t * t),
    ;
    assert((u - t) * factor >= 0) by (nonlinear_arith)
        requires
            u - t >= 0,
            factor >= 0,
    ;
}

/// What a tangent takes away, at most, of what the slope adds.
proof fn lemma_share_lost(q: int, change: int, bd: int, bw: int, cube: int)
    requires
        0 <= q <= 3 * bd + bw,
        0 <= bd,
        0 <= bw,
        -cube <= 4 * change,
    ensures
        change >= 0 ==> 4 * (q * change) >= 0,
        change < 0 ==> 4 * (q * change) >= 12 * (bd * change) - bw * cube,
{
    if change >= 0 {
        assert(q * change >= 0) by (nonlinear_arith)
            requires
                q >= 0,
                change >= 0,
        ;
    } else {
        assert(q * change >= (3 * bd + bw) * change) by (nonlinear_arith)
            requires
                q <= 3 * bd + bw,
                change < 0,
        ;
        assert((3 * bd + bw) * change == 3 * (bd * change) + bw * change) by (nonlinear_arith);
        assert(4 * (bw * change) >= -(bw * cube)) by (nonlinear_arith)
            requires
                bw >= 0,
                -cube <= 4 * change,
        ;
    }
}

/// A cubic with tangents of at most three times its slope rises all the way.
proof fn lemma_climbs(d: int, q0: int, q1: int, t: int, u: int, b: int, w: int)
    requires
        0 <= t <= u <= b,
        0 <= d,
        0 <= w,
        0 <= q0 <= 3 * (b * d) + b * w,
        0 <= q1 <= 3 * (b * d) + b * w,
    ensures
        rise(d, q0, q1, t, b) <= rise(d, q0, q1, u, b) + b * w * (b * b * b),
{
    let bd = b * d;
    let bw = b * w;
    let cube = b * b * b;
    let step = second_weight(u, b) - second_weight(t, b);
    let first = first_tangent_weight(u, b) - first_tangent_weight(t, b);
    let second = second_tangent_weight(u, b) - second_tangent_weight(t, b);
    lemma_weights(t, b);
    lemma_weights(u, b);
    lemma_weights_grow(t, u, b);
    assert(bd >= 0 && bw >= 0) by (nonlinear_arith)
        requires
            bd == b * d,
            bw == b * w,
            b >= 0,
            d >= 0,
            w >= 0,
    ;
    lemma_share_lost(q0, first, bd, bw, cube);
    lemma_share_lost(q1, second, bd, bw, cube);
    lemma_times_difference(bd, second_weight(u, b), second_weight(t, b));
    lemma_times_difference(q0, first_tangent_weight(u, b), first_tangent_weight(t, b));
    lemma_times_difference(q1, second_tangent_weight(u, b), second_tangent_weight(t, b));
    assert(bd * step >= 0 && bd * step + 3 * (bd * first) >= 0 && bd * step + 3 * (bd * second) >= 0
        && bd * step + 3 * (bd * first) + 3 * (bd * second) >= 0) by {
        lemma_nonnegative_product(bd, step);
        lemma_nonnegative_product(bd, step + 3 * first);
        lemma_nonnegative_product(bd, step + 3 * second);
        lemma_nonnegative_product(bd, step + 3 * first + 3 * second);
        assert(bd * (step + 3 * first) == bd * step + 3 * (bd * first)) by (nonlinear_arith);
        assert(bd * (step + 3 * second) == bd * step + 3 * (bd * second)) by (nonlinear_arith);
        assert(bd * (step + 3 * first + 3 * second) == bd * step + 3 * (bd * first) + 3 * (bd
            * second)) by (nonlinear_arith);
    }
    assert(bw * cube >= 0) by (nonlinear_arith)
        requires
            bw >= 0,
            cube == b * b * b,
            b >= 0,
    ;
}

proof fn lemma_times_difference(x: int, y: int, z: int)
    ensures
        x * (y - z) == x * y - x * z,
{
    assert(x * (y - z) == x * y - x * z) by (nonlinear_arith);
}

proof fn lemma_nonnegative_product(x: int, y: int)
    requires
        x >= 0,
        y >= 0,
    ensures
        x * y >= 0,
{
    assert(x * y >= 0) by (nonlinear_arith)
        requires
            x >= 0,
            y >= 0,
    ;
}

/// The cubic as it is computed goes one way from the first end to the second,
/// but for what rounding adds.
pub proof fn lemma_goes_one_way(
    v0: int,
    v1: int,
    q0: int,
    q1: int,
    t: int,
    u: int,
    earlier: int,
    later: int,
    b: int,
    g: int,
    w: int,
)
    requires
        0 <= t <= u <= b,
        0 < g,
        w == 32 * g,
        0 < b,
        is_limited(q0, v1 - v0, b, w),
        is_limited(q1, v1 - v0, b, w),
        near(
            earlier * (b * b * b * b),
            v0 * (b * b * b * b) + rise(v1 - v0, q0, q1, t, b),
            76 * (g * (b * b * b * b)),
        ),
        near(
            later * (b * b * b * b),
            v0 * (b * b * b * b) + rise(v1 - v0, q0, q1, u, b),
            76 * (g * (b * b * b * b)),
        ),
    ensures
        v0 <= v1 ==> earlier <= later + 184 * g,
        v1 <= v0 ==> later <= earlier + 184 * g,
{
    let d = v1 - v0;
    let four = b * b * b * b;
    let gf = g * four;
    assert(four > 0) by (nonlinear_arith)
        requires
            four == b * b * b * b,
            b > 0,
    ;
    assert(b * w * (b * b * b) == 32 * gf) by (nonlinear_arith)
        requires
            w == 32 * g,
            gf == g * four,
            four == b * b * b * b,
    ;
    if d >= 0 {
        lemma_climbs(d, q0, q1, t, u, b, w);
        lemma_cancelled(earlier, later, g, four);
    }
    if d <= 0 {
        if d == 0 {
            assert(b * d == 0 && b * -d == 0) by (nonlinear_arith)
                requires
                    d == 0,
            ;
            lemma_falls_flat(q0, q1, t, u, b, w);
        } else {
            lemma_climbs(-d, -q0, -q1, t, u, b, w);
            lemma_turned(d, q0, q1, t, b);
            lemma_turned(d, q0, q1, u, b);
        }
        lemma_cancelled(later, earlier, g, four);
    }
}

/// A cubic upside down.
proof fn lemma_turned(d: int, q0: int, q1: int, t: int, b: int)
    ensures
        rise(-d, -q0, -q1, t, b) == -rise(d, q0, q1, t, b),
{
    let h01 = second_weight(t, b);
    let h10 = first_tangent_weight(t, b);
    let h11 = second_tangent_weight(t, b);
    assert(b * -d * h01 + -q0 * h10 + -q1 * h11 == -(b * d * h01 + q0 * h10 + q1 * h11))
        by (nonlinear_arith);
}

/// Where both ends are alike, what the tangents add is lost again.
proof fn lemma_falls_flat(q0: int, q1: int, t: int, u: int, b: int, w: int)
    requires
        0 <= t <= u <= b,
        0 <= w,
        0 <= q0 <= b * w,
        0 <= q1 <= b * w,
    ensures
        rise(0, q0, q1, u, b) <= rise(0, q0, q1, t, b) + b * w * (b * b * b),
{
    lemma_weights(t, b);
    lemma_weights(u, b);
    let bw = b * w;
    let cube = b * b * b;
    let first = first_tangent_weight(u, b) - first_tangent_weight(t, b);
    let second = second_tangent_weight(u, b) - second_tangent_weight(t, b);
    assert(4 * (q0 * first) <= bw * cube) by (nonlinear_arith)
        requires
            0 <= q0 <= bw,
            4 * first <= cube,
            cube >= 0,
    ;
    assert(4 * (q1 * second) <= bw * cube) by (nonlinear_arith)
        requires
            0 <= q1 <= bw,
            4 * second <= cube,
            cube >= 0,
    ;
    lemma_times_difference(q0, first_tangent_weight(u, b), first_tangent_weight(t, b));
    lemma_times_difference(q1, second_tangent_weight(u, b), second_tangent_weight(t, b));
    assert(b * 0 == 0) by (nonlinear_arith);
    assert(bw * cube >= 0) by (nonlinear_arith)
        requires
            bw >= 0,
            cube >= 0,
    ;
}

proof fn lemma_cancelled(less: int, more: int, g: int, four: int)
    requires
        four > 0,
        less * four <= more * four + 184 * (g * four),
    ensures
        less <= more + 184 * g,
{
    assert(less <= more + 184 * g) by (nonlinear_arith)
        requires
            four > 0,
            less * four <= more * four + 184 * (g * four),
    ;
}

/// The product of a weight, an interval and a tangent, rounded twice.
pub proof fn lemma_tangent_product(h: int, i: int, m: int, y: int, p: int, b: int, g: int)
    requires
        0 <= h,
        0 <= i,
        0 <= m <= 8192 * b,
        0 <= y,
        0 <= p,
        b >= 18446744073709551616,
        g * 8388608 == 4 * b,
        y * b * 8388608 <= h * i * 8388609 + b * 8388608,
        h * i * 8388608 <= y * b * 8388609 + b * 8388608,
        p * b * 8388608 <= y * m * 8388609 + b * 8388608,
        y * m * 8388608 <= p * b * 8388609 + b * 8388608,
        8 * h <= 9 * b,
        1000 * (i * m) <= 3001 * (b * b),
    ensures
        near(p * (b * b), h * (i * m), 3 * (g * (b * b))),
{
    let bb = b * b;
    let cube = b * b * b;
    let hq = h * (i * m);
    let ybm = y * b * m;
    let pbb = p * bb;
    let bm = b * m;
    assert(8000 * hq <= 27009 * cube) by (nonlinear_arith)
        requires
            hq == h * (i * m),
            cube == b * b * b,
            0 <= h,
            8 * h <= 9 * b,
            0 <= i * m,
            1000 * (i * m) <= 3001 * (b * b),
    ;
    assert(ybm * 8388608 <= hq * 8388609 + bm * 8388608 && hq * 8388608 <= ybm * 8388609 + bm * 8388608) by {
        assert(y * b * 8388608 * m <= (h * i * 8388609 + b * 8388608) * m && h * i * 8388608 * m <= (y * b * 8388609 + b * 8388608) * m)
            by (nonlinear_arith)
            requires
                y * b * 8388608 <= h * i * 8388609 + b * 8388608,
                h * i * 8388608 <= y * b * 8388609 + b * 8388608,
                m >= 0,
        ;
        assert(y * b * 8388608 * m == ybm * 8388608) by (nonlinear_arith)
            requires
                ybm == y * b * m,
        ;
        assert((h * i * 8388609 + b * 8388608) * m == hq * 8388609 + bm * 8388608) by (nonlinear_arith)
            requires
                hq == h * (i * m),
                bm == b * m,
        ;
        assert(h * i * 8388608 * m == hq * 8388608) by (nonlinear_arith)
            requires
                hq == h * (i * m),
        ;
        assert((y * b * 8388609 + b * 8388608) * m == ybm * 8388609 + bm * 8388608) by (nonlinear_arith)
            requires
                ybm == y * b * m,
                bm == b * m,
        ;
    }
    assert(pbb * 8388608 <= ybm * 8388609 + bb * 8388608 && ybm * 8388608 <= pbb * 8388609 + bb * 8388608) by {
        assert(p * b * 8388608 * b <= (y * m * 8388609 + b * 8388608) * b && y * m * 8388608 * b <= (p * b * 8388609 + b * 8388608) * b)
            by (nonlinear_arith)
            requires
                p * b * 8388608 <= y * m * 8388609 + b * 8388608,
                y * m * 8388608 <= p * b * 8388609 + b * 8388608,
                b >= 0,
        ;
        assert(p * b * 8388608 * b == pbb * 8388608) by (nonlinear_arith)
            requires
                pbb == p * bb,
                bb == b * b,
        ;
        assert((y * m * 8388609 + b * 8388608) * b == ybm * 8388609 + bb * 8388608) by (nonlinear_arith)
            requires
                ybm == y * b * m,
                bb == b * b,
        ;
        assert(y * m * 8388608 * b == ybm * 8388608) by (nonlinear_arith)
            requires
                ybm == y * b * m,
        ;
        assert((p * b * 8388609 + b * 8388608) * b == pbb * 8388609 + bb * 8388608) by (nonlinear_arith)
            requires
                pbb == p * bb,
                bb == b * b,
        ;
    }
    assert(bm <= 8192 * bb) by (nonlinear_arith)
        requires
            bm == b * m,
            bb == b * b,
            m <= 8192 * b,
            b >= 0,
    ;
    assert(cube >= 18446744073709551616 * bb) by (nonlinear_arith)
        requires
            cube == b * b * b,
            bb == b * b,
            b >= 18446744073709551616,
    ;
    assert(bb >= 0) by (nonlinear_arith)
        requires
            bb == b * b,
    ;
    let gbb = g * bb;
    assert(gbb * 8388608 == 4 * cube) by (nonlinear_arith)
        requires
            gbb == g * bb,
            bb == b * b,
            cube == b * b * b,
            g * 8388608 == 4 * b,
    ;
    lemma_twice(hq, ybm, pbb, bm, bb, cube, gbb);
}

proof fn lemma_twice(hq: int, ybm: int, pbb: int, bm: int, bb: int, cube: int, gbb: int)
    requires
        8000 * hq <= 27009 * cube,
        ybm * 8388608 <= hq * 8388609 + bm * 8388608,
        hq * 8388608 <= ybm * 8388609 + bm * 8388608,
        pbb * 8388608 <= ybm * 8388609 + bb * 8388608,
        ybm * 8388608 <= pbb * 8388609 + bb * 8388608,
        bm <= 8192 * bb,
        cube >= 18446744073709551616 * bb,
        bb >= 0,
        gbb * 8388608 == 4 * cube,
    ensures
        near(pbb, hq, 3 * gbb),
{
}

} // verus!
