//! The largest rectangle inside a turned one, in whole numbers.

use vstd::prelude::*;

verus! {

/// Whether a number is another, but for one part in `m` of it.
pub open spec fn about(x: int, y: int, m: int) -> bool {
    -y <= (x - y) * m <= y
}

/// The rectangle between both pairs of sides, `d` times as large: the sides
/// would be `n1` and `n2`. It touches all four sides.
proof fn lemma_touches(p: int, q: int, s: int, c: int, n1: int, n2: int, d: int)
    requires
        n1 == p * c - q * s,
        n2 == q * c - p * s,
        d == c * c - s * s,
    ensures
        n1 * c + n2 * s == p * d,
        n1 * s + n2 * c == q * d,
{
    assert(n1 * c == p * (c * c) - q * (s * c)) by (nonlinear_arith)
        requires
            n1 == p * c - q * s,
    ;
    assert(n2 * s == q * (s * c) - p * (s * s)) by (nonlinear_arith)
        requires
            n2 == q * c - p * s,
    ;
    assert(n1 * s == p * (s * c) - q * (s * s)) by (nonlinear_arith)
        requires
            n1 == p * c - q * s,
    ;
    assert(n2 * c == q * (c * c) - p * (s * c)) by (nonlinear_arith)
        requires
            n2 == q * c - p * s,
    ;
    assert(p * d == p * (c * c) - p * (s * s) && q * d == q * (c * c) - q * (s * s))
        by (nonlinear_arith)
        requires
            d == c * c - s * s,
    ;
}

/// Sides that are about right fit: `k` is the side of the photo.
proof fn lemma_fits(w: int, h: int, u: int, v: int, x: int, y: int, k: int, d: int, b: int)
    requires
        d > 0,
        b > 0,
        u >= 0,
        v >= 0,
        x >= 0,
        y >= 0,
        about(w * d, u * b, 0x20_0000),
        about(h * d, v * b, 0x20_0000),
        u * x + v * y == k * d,
    ensures
        0x20_0000 * (w * x + h * y) <= 0x20_0001 * (k * b),
{
    let left = w * x + h * y;
    let (wd, hd, ub, vb) = (w * d, h * d, u * b, v * b);
    assert(0x20_0000 * (wd * x) <= 0x20_0001 * (ub * x)) by (nonlinear_arith)
        requires
            0x20_0000 * wd <= 0x20_0001 * ub,
            x >= 0,
    ;
    assert(0x20_0000 * (hd * y) <= 0x20_0001 * (vb * y)) by (nonlinear_arith)
        requires
            0x20_0000 * hd <= 0x20_0001 * vb,
            y >= 0,
    ;
    assert(wd * x + hd * y == left * d) by (nonlinear_arith)
        requires
            wd == w * d,
            hd == h * d,
            left == w * x + h * y,
    ;
    assert(ub * x + vb * y == k * b * d) by (nonlinear_arith)
        requires
            ub == u * b,
            vb == v * b,
            u * x + v * y == k * d,
    {
        assert(ub * x + vb * y == (u * x + v * y) * b);
    }
    let kb = k * b;
    assert(0x20_0000 * left <= 0x20_0001 * kb) by (nonlinear_arith)
        requires
            0x20_0000 * (left * d) <= 0x20_0001 * (kb * d),
            d > 0,
    ;
}

/// Four times a product is at most the square of the sum.
proof fn lemma_middle(x: int, y: int)
    ensures
        4 * (x * y) <= (x + y) * (x + y),
{
    let g = x - y;
    assert(g * g >= 0) by (nonlinear_arith);
    assert((x + y) * (x + y) - 4 * (x * y) == g * g) by (nonlinear_arith)
        requires
            g == x - y,
    ;
}

proof fn lemma_swapped(a: int, b: int, c: int, d: int)
    ensures
        (a * b) * (c * d) == (a * c) * (b * d),
{
    assert((a * b) * (c * d) == (a * c) * (b * d)) by (nonlinear_arith);
}

proof fn lemma_crossed(a: int, b: int, c: int, d: int)
    ensures
        (a - b) * (c + d) == a * c + a * d - b * c - b * d,
{
    assert((a - b) * (c + d) == a * c + a * d - b * c - b * d) by (nonlinear_arith);
}

proof fn lemma_turned_sum(n1: int, n2: int, s: int, c: int, x: int, y: int)
    ensures
        (n2 * x + n1 * y) * (c * c - s * s) == (n2 * c - n1 * s) * (x * c + y * s) + (n1 * c - n2
            * s) * (x * s + y * c),
{
    lemma_crossed(n2 * c, n1 * s, x * c, y * s);
    lemma_crossed(n1 * c, n2 * s, x * s, y * c);
    lemma_swapped(n2, c, x, c);
    lemma_swapped(n2, c, y, s);
    lemma_swapped(n1, s, x, c);
    lemma_swapped(n1, s, y, s);
    lemma_swapped(n1, c, x, s);
    lemma_swapped(n1, c, y, c);
    lemma_swapped(n2, s, x, s);
    lemma_swapped(n2, s, y, c);
    assert(c * s == s * c) by (nonlinear_arith);
    let (cc, ss) = (c * c, s * s);
    let (f, g) = (n2 * x, n1 * y);
    assert((f + g) * (cc - ss) == f * cc + g * cc - f * ss - g * ss) by (nonlinear_arith);
}

proof fn lemma_turned_product(p: int, q: int, s: int, c: int, n1: int, n2: int)
    requires
        n1 == p * c - q * s,
        n2 == q * c - p * s,
    ensures
        (n2 * c - n1 * s) * p + (n1 * c - n2 * s) * q == 2 * (n1 * n2),
{
    lemma_taken(n2, c, n1, s, p);
    lemma_taken(n1, c, n2, s, q);
    let (pc, qs, qc, ps) = (p * c, q * s, q * c, p * s);
    assert(n2 * (pc - qs) == n2 * pc - n2 * qs && n1 * (qc - ps) == n1 * qc - n1 * ps)
        by (nonlinear_arith);
    assert(n2 * n1 == n1 * n2) by (nonlinear_arith);
}

proof fn lemma_taken(a: int, b: int, c: int, d: int, k: int)
    ensures
        (a * b - c * d) * k == a * (k * b) - c * (k * d),
{
    assert((a * b - c * d) * k == a * (k * b) - c * (k * d)) by (nonlinear_arith);
}

/// Where both pairs of sides limit a rectangle, none is larger than the one
/// that touches all of them.
proof fn lemma_both_limit(
    p: int,
    q: int,
    s: int,
    c: int,
    n1: int,
    n2: int,
    d: int,
    x: int,
    y: int,
    b: int,
)
    requires
        n1 == p * c - q * s,
        n2 == q * c - p * s,
        d == c * c - s * s,
        n1 > 0,
        n2 > 0,
        d > 0,
        x >= 0,
        y >= 0,
        b > 0,
        n2 * c - n1 * s >= 0,
        n1 * c - n2 * s >= 0,
        x * c + y * s <= p * b,
        x * s + y * c <= q * b,
    ensures
        x * y * (d * d) <= n1 * n2 * (b * b),
{
    let l = n2 * c - n1 * s;
    let m = n1 * c - n2 * s;
    let total = n2 * x + n1 * y;
    let (first, second) = (x * c + y * s, x * s + y * c);
    lemma_turned_sum(n1, n2, s, c, x, y);
    let (pb, qb) = (p * b, q * b);
    assert(l * first <= l * pb && m * second <= m * qb) by (nonlinear_arith)
        requires
            l >= 0,
            m >= 0,
            first <= pb,
            second <= qb,
    ;
    let nn = n1 * n2;
    lemma_turned_product(p, q, s, c, n1, n2);
    assert(l * pb + m * qb == 2 * (nn * b)) by (nonlinear_arith)
        requires
            pb == p * b,
            qb == q * b,
            l * p + m * q == 2 * nn,
    {
        assert(l * pb + m * qb == (l * p + m * q) * b);
    }
    let (xs, ys) = (n2 * x, n1 * y);
    lemma_middle(xs, ys);
    let xy = x * y;
    assert(xs * ys == nn * xy) by (nonlinear_arith)
        requires
            xs == n2 * x,
            ys == n1 * y,
            nn == n1 * n2,
            xy == x * y,
    ;
    let td = total * d;
    let limit = nn * b;
    assert(total >= 0 && nn > 0) by (nonlinear_arith)
        requires
            total == n2 * x + n1 * y,
            nn == n1 * n2,
            n1 > 0,
            n2 > 0,
            x >= 0,
            y >= 0,
    ;
    assert(td >= 0) by (nonlinear_arith)
        requires
            td == total * d,
            total >= 0,
            d > 0,
    ;
    assert(td * td <= 4 * (limit * limit)) by (nonlinear_arith)
        requires
            0 <= td <= 2 * limit,
    ;
    let dd = d * d;
    assert(4 * (nn * xy) * dd <= td * td) by (nonlinear_arith)
        requires
            4 * (nn * xy) <= total * total,
            td == total * d,
            dd == d * d,
    {
        assert(dd >= 0);
        assert(4 * (nn * xy) * dd <= total * total * dd);
        assert(total * total * dd == td * td);
    }
    assert(xy * dd <= nn * (b * b)) by (nonlinear_arith)
        requires
            4 * (nn * xy) * dd <= 4 * (limit * limit),
            limit == nn * b,
            nn > 0,
    {
        let left = xy * dd;
        let right = nn * (b * b);
        assert(4 * (nn * xy) * dd == 4 * (nn * left));
        assert(4 * (limit * limit) == 4 * (nn * right));
        assert(nn * left <= nn * right);
    }
}

/// Where the shorter pair of sides limits a rectangle alone.
proof fn lemma_short_limits(q: int, s: int, c: int, x: int, y: int, b: int)
    requires
        x >= 0,
        y >= 0,
        s >= 0,
        c >= 0,
        x * s + y * c <= q * b,
    ensures
        4 * (x * y * (s * c)) <= q * b * (q * b),
{
    let (xs, yc) = (x * s, y * c);
    lemma_middle(xs, yc);
    assert(xs >= 0 && yc >= 0) by (nonlinear_arith)
        requires
            xs == x * s,
            yc == y * c,
            x >= 0,
            y >= 0,
            s >= 0,
            c >= 0,
    ;
    let qb = q * b;
    assert((xs + yc) * (xs + yc) <= qb * qb) by (nonlinear_arith)
        requires
            0 <= xs + yc <= qb,
    ;
    assert(xs * yc == x * y * (s * c)) by (nonlinear_arith)
        requires
            xs == x * s,
            yc == y * c,
    ;
}

/// A difference of two rounded products: `f` and `g` are the exact ones, and
/// `n` is the difference.
pub proof fn lemma_gap(f: int, g: int, p1: int, p2: int, n: int, b: int, v: int)
    requires
        b >= 1,
        v >= 0x10_0000_0000_0000 * b,
        0 <= f <= v,
        0 <= g <= v,
        (p1 * b - f) * 0x10_0000_0000_0000 <= f + b * 0x10_0000_0000_0000,
        (f - p1 * b) * 0x10_0000_0000_0000 <= f + b * 0x10_0000_0000_0000,
        (p2 * b - g) * 0x10_0000_0000_0000 <= g + b * 0x10_0000_0000_0000,
        (g - p2 * b) * 0x10_0000_0000_0000 <= g + b * 0x10_0000_0000_0000,
        p1 >= p2 ==> (n - (p1 - p2)) * 0x10_0000_0000_0000 <= p1 - p2 + 0x10_0000_0000_0000,
        p1 >= p2 ==> (p1 - p2 - n) * 0x10_0000_0000_0000 <= p1 - p2 + 0x10_0000_0000_0000,
        p1 < p2 ==> (n - (p1 - p2)) * 0x10_0000_0000_0000 <= p2 - p1 + 0x10_0000_0000_0000,
        p1 < p2 ==> (p1 - p2 - n) * 0x10_0000_0000_0000 <= p2 - p1 + 0x10_0000_0000_0000,
    ensures
        -v <= (n * b - (f - g)) * 0x2_0000_0000_0000 <= v,
{
    let off = n - (p1 - p2);
    let size = if p1 >= p2 {
        p1 - p2
    } else {
        p2 - p1
    };
    assert(-(size * b + 0x10_0000_0000_0000 * b) <= off * b * 0x10_0000_0000_0000 <= size * b
        + 0x10_0000_0000_0000 * b) by (nonlinear_arith)
        requires
            off * 0x10_0000_0000_0000 <= size + 0x10_0000_0000_0000,
            -off * 0x10_0000_0000_0000 <= size + 0x10_0000_0000_0000,
            b >= 1,
    ;
    assert(off * b == n * b - (p1 * b - p2 * b)) by (nonlinear_arith)
        requires
            off == n - (p1 - p2),
    ;
    assert(size * b == if p1 >= p2 {
        p1 * b - p2 * b
    } else {
        p2 * b - p1 * b
    }) by (nonlinear_arith)
        requires
            size == if p1 >= p2 {
                p1 - p2
            } else {
                p2 - p1
            },
    ;
}

/// A quotient of two numbers that are about right: `w` is the quotient of `n`
/// and `e`, which stand for `top` and `d`.
pub proof fn lemma_quotient_about(w: int, n: int, e: int, top: int, d: int, b: int, v: int)
    requires
        b >= 0x10_0000_0000_0000_0000_0000_0000,
        v >= b * b,
        0x800_0000 * top >= v,
        0x200_0000 * d >= b * b,
        d <= b * b,
        -v <= (n * b - top) * 0x2_0000_0000_0000 <= v,
        -(b * b) <= (e * b - d) * 0x2_0000_0000_0000 <= b * b,
        n >= 0,
        (w * e - n * b) * 0x10_0000_0000_0000 <= n * b + e * 0x10_0000_0000_0000,
        (n * b - w * e) * 0x10_0000_0000_0000 <= n * b + e * 0x10_0000_0000_0000,
    ensures
        w >= 0,
        about(w * d, top * b, 0x20_0000),
{
    let bb = b * b;
    let nb = n * b;
    let eb = e * b;
    let we = w * e;
    assert(bb >= 0x10_0000_0000_0000_0000_0000_0000 * b) by (nonlinear_arith)
        requires
            bb == b * b,
            b >= 0x10_0000_0000_0000_0000_0000_0000,
    ;
    assert(0 < e <= 2 * b) by (nonlinear_arith)
        requires
            0 < eb <= 2 * bb,
            eb == e * b,
            bb == b * b,
            b > 0,
    ;
    assert(-top <= (we - top) * 0x3f_0000 <= top);
    assert(w >= 0) by (nonlinear_arith)
        requires
            we > 0,
            we == w * e,
            e > 0,
    ;
    let u = w * eb;
    let a = w * d;
    let t = top * b;
    assert(u == we * b) by (nonlinear_arith)
        requires
            u == w * eb,
            eb == e * b,
            we == w * e,
    ;
    assert(-t <= (u - t) * 0x3f_0000 <= t) by (nonlinear_arith)
        requires
            -top <= (we - top) * 0x3f_0000 <= top,
            u == we * b,
            t == top * b,
            b > 0,
    ;
    assert(-d <= (eb - d) * 0x100_0000 <= d);
    assert(-a <= (u - a) * 0x100_0000 <= a) by (nonlinear_arith)
        requires
            -d <= (eb - d) * 0x100_0000 <= d,
            u == w * eb,
            a == w * d,
            w >= 0,
    ;
}

/// Twice the product of sine and cosine, times a side, after each product has
/// been rounded.
pub proof fn lemma_threshold(t1: int, t2: int, t3: int, s: int, c: int, p: int, b: int)
    requires
        b >= 0x10_0000_0000_0000_0000_0000_0000,
        0 <= s <= b,
        0 <= c <= b,
        0 <= p <= 0x1_0000_0000 * b,
        0 <= t1,
        0 <= t2,
        (t1 - 2 * s) * 0x10_0000_0000_0000 <= 2 * s + 0x10_0000_0000_0000,
        (2 * s - t1) * 0x10_0000_0000_0000 <= 2 * s + 0x10_0000_0000_0000,
        (t2 * b - t1 * c) * 0x10_0000_0000_0000 <= t1 * c + b * 0x10_0000_0000_0000,
        (t1 * c - t2 * b) * 0x10_0000_0000_0000 <= t1 * c + b * 0x10_0000_0000_0000,
        (t3 * b - t2 * p) * 0x10_0000_0000_0000 <= t2 * p + b * 0x10_0000_0000_0000,
        (t2 * p - t3 * b) * 0x10_0000_0000_0000 <= t2 * p + b * 0x10_0000_0000_0000,
    ensures
        ({
            let r = 2 * (s * c * p);
            let bb = b * b;
            -(r + bb * b) <= (t3 * bb - r) * 0x2_0000_0000_0000 <= r + bb * b
        }),
{
    let sc = s * c;
    let t1c = t1 * c;
    let t2b = t2 * b;
    assert(-(2 * sc + 0x10_0000_0000_0000 * c) <= (t1c - 2 * sc) * 0x10_0000_0000_0000 <= 2 * sc
        + 0x10_0000_0000_0000 * c) by (nonlinear_arith)
        requires
            (t1 - 2 * s) * 0x10_0000_0000_0000 <= 2 * s + 0x10_0000_0000_0000,
            (2 * s - t1) * 0x10_0000_0000_0000 <= 2 * s + 0x10_0000_0000_0000,
            sc == s * c,
            t1c == t1 * c,
            c >= 0,
    ;
    assert(sc >= 0) by (nonlinear_arith)
        requires
            sc == s * c,
            s >= 0,
            c >= 0,
    ;
    let e2 = 5 * sc + 0x40_0000_0000_0000 * b;
    assert(-e2 <= (t2b - 2 * sc) * 0x10_0000_0000_0000 <= e2);
    let r = 2 * (sc * p);
    let t2bp = t2b * p;
    let scp = sc * p;
    let bp = b * p;
    assert(scp >= 0 && bp >= 0) by (nonlinear_arith)
        requires
            scp == sc * p,
            bp == b * p,
            sc >= 0,
            b >= 0,
            p >= 0,
    ;
    assert(-(5 * scp + 0x40_0000_0000_0000 * bp) <= (t2bp - 2 * scp) * 0x10_0000_0000_0000 <= 5
        * scp + 0x40_0000_0000_0000 * bp) by (nonlinear_arith)
        requires
            -e2 <= (t2b - 2 * sc) * 0x10_0000_0000_0000 <= e2,
            e2 == 5 * sc + 0x40_0000_0000_0000 * b,
            t2bp == t2b * p,
            scp == sc * p,
            bp == b * p,
            p >= 0,
    ;
    let bb = b * b;
    let t3bb = t3 * bb;
    assert(-(t2bp + 0x10_0000_0000_0000 * bb) <= (t3bb - t2bp) * 0x10_0000_0000_0000 <= t2bp
        + 0x10_0000_0000_0000 * bb) by (nonlinear_arith)
        requires
            (t3 * b - t2 * p) * 0x10_0000_0000_0000 <= t2 * p + b * 0x10_0000_0000_0000,
            (t2 * p - t3 * b) * 0x10_0000_0000_0000 <= t2 * p + b * 0x10_0000_0000_0000,
            t3bb == t3 * bb,
            bb == b * b,
            t2bp == t2 * b * p,
            b > 0,
    {
        let x = t3 * b;
        let y = t2 * p;
        assert(x * b == t3bb);
        assert(y * b == t2bp);
        assert((x - y) * 0x10_0000_0000_0000 * b <= (y + b * 0x10_0000_0000_0000) * b);
        assert((y - x) * 0x10_0000_0000_0000 * b <= (y + b * 0x10_0000_0000_0000) * b);
    }
    assert(bp <= 0x1_0000_0000 * bb) by (nonlinear_arith)
        requires
            bp == b * p,
            p <= 0x1_0000_0000 * b,
            bb == b * b,
            b > 0,
    ;
    assert(bb * b >= 0x10_0000_0000_0000_0000_0000_0000 * bb) by (nonlinear_arith)
        requires
            b >= 0x10_0000_0000_0000_0000_0000_0000,
            bb >= 0,
    ;
    assert(bb >= 0) by (nonlinear_arith)
        requires
            bb == b * b,
    ;
}

/// Whether four numbers are the sides of a photo and the sine and cosine of an
/// angle of at most an eighth turn, in units of which `b` make one.
pub open spec fn are_sides_and_angle(p: int, q: int, s: int, c: int, b: int) -> bool {
    &&& b >= 0x10_0000_0000_0000_0000_0000_0000
    &&& b <= q <= p <= 0x1_0000_0000 * b
    &&& 0 <= s <= c <= b
    &&& -(b * b) <= (s * s + c * c - b * b) * 0x1_0000_0000_0000 <= b * b
}

/// What holds of the sides where both pairs of sides limit the rectangle.
pub proof fn lemma_both_matter(p: int, q: int, s: int, c: int, b: int)
    requires
        are_sides_and_angle(p, q, s, c, b),
        b <= 0x100_0000 * (c - s),
        2 * (s * c * p) * 0x1_ffff_ffff_ffff <= q * (b * b) * 0x2_0000_0000_0001,
    ensures
        ({
            let n1 = p * c - q * s;
            let n2 = q * c - p * s;
            let d = c * c - s * s;
            &&& 0x200_0000 * d >= b * b
            &&& d <= b * b
            &&& 0x800_0000 * n1 >= p * b
            &&& 0x800_0000 * n2 >= q * b
            &&& p * s <= q * b
            &&& n1 * c - n2 * s >= 0
            &&& (n2 * c - n1 * s) * 0x4000_0000_0000 >= -(q * (b * b))
        }),
{
    let (ss, cc, sc, bb) = (s * s, c * c, s * c, b * b);
    let n1 = p * c - q * s;
    let n2 = q * c - p * s;
    let d = cc - ss;
    let (g, t) = (c - s, c + s);
    assert(ss <= cc && 0 <= ss && 0 <= sc && cc <= bb) by (nonlinear_arith)
        requires
            0 <= s <= c <= b,
            ss == s * s,
            cc == c * c,
            sc == s * c,
            bb == b * b,
    ;
    assert(bb > 0) by (nonlinear_arith)
        requires
            bb == b * b,
            b > 0,
    ;
    // The cosine is at least seven tenths.
    assert(10 * c >= 7 * b) by (nonlinear_arith)
        requires
            100 * cc >= 49 * bb,
            cc == c * c,
            bb == b * b,
            c >= 0,
            b > 0,
    ;
    // The difference of the squares.
    assert(d == g * t) by (nonlinear_arith)
        requires
            d == c * c - s * s,
            g == c - s,
            t == c + s,
    ;
    assert(2 * (g * t) * 0x100_0000 >= bb) by (nonlinear_arith)
        requires
            0x100_0000 * g >= b,
            2 * t >= b,
            bb == b * b,
            b > 0,
    {
        assert((0x100_0000 * g) * (2 * t) >= b * b);
    }
    // The longer side.
    let (pc, qs, ps, qc) = (p * c, q * s, p * s, q * c);
    assert(qs <= ps && pc - ps == p * g) by (nonlinear_arith)
        requires
            q <= p,
            s >= 0,
            qs == q * s,
            ps == p * s,
            pc == p * c,
            g == c - s,
    ;
    let pb = p * b;
    assert(0x100_0000 * (p * g) >= pb) by (nonlinear_arith)
        requires
            0x100_0000 * g >= b,
            pb == p * b,
            p >= 0,
    ;
    // The shorter side.
    let r = 2 * (s * c * p);
    let qbb = q * bb;
    let qb = q * b;
    assert(r == 2 * (c * ps)) by (nonlinear_arith)
        requires
            r == 2 * (s * c * p),
            ps == p * s,
    ;
    assert(7 * (b * ps) <= 5 * r) by (nonlinear_arith)
        requires
            r == 2 * (c * ps),
            10 * c >= 7 * b,
            ps >= 0,
    ;
    assert(ps >= 0) by (nonlinear_arith)
        requires
            ps == p * s,
            p >= 0,
            s >= 0,
    ;
    assert(qbb == qb * b && qbb > 0) by (nonlinear_arith)
        requires
            qbb == q * bb,
            bb == b * b,
            qb == q * b,
            q > 0,
            b > 0,
    ;
    assert(ps <= qb) by (nonlinear_arith)
        requires
            b * ps <= qb * b,
            b > 0,
    ;
    let (qcc, qss, qd) = (q * cc, q * ss, q * d);
    assert(2 * (c * n2) == 2 * qcc - r) by (nonlinear_arith)
        requires
            n2 == q * c - p * s,
            qcc == q * (c * c),
            r == 2 * (s * c * p),
    ;
    let rest = ss + cc - bb;
    assert(2 * qcc == qd + qbb + q * rest) by (nonlinear_arith)
        requires
            qcc == q * cc,
            qd == q * (cc - ss),
            qbb == q * bb,
            rest == ss + cc - bb,
    ;
    assert(-qbb <= q * rest * 0x1_0000_0000_0000 <= qbb && 0x200_0000 * qd >= qbb)
        by (nonlinear_arith)
        requires
            -bb <= rest * 0x1_0000_0000_0000 <= bb,
            0x200_0000 * d >= bb,
            qbb == q * bb,
            qd == q * d,
            q > 0,
    ;
    assert(0x400_0000 * (2 * (c * n2)) >= qbb);
    assert(n2 > 0) by (nonlinear_arith)
        requires
            c * n2 > 0,
            c >= 0,
    ;
    assert(c * n2 <= b * n2) by (nonlinear_arith)
        requires
            c <= b,
            n2 > 0,
    ;
    assert(0x800_0000 * n2 >= qb) by (nonlinear_arith)
        requires
            0x800_0000 * (b * n2) >= qb * b,
            b > 0,
    ;
    // The multipliers.
    lemma_multipliers(p, q, s, c);
    let qsc = q * sc;
    let psc = p * sc;
    assert(qsc <= psc && p * (ss + cc) - 2 * psc == p * (g * g) && p * (g * g) >= 0)
        by (nonlinear_arith)
        requires
            q <= p,
            sc >= 0,
            qsc == q * sc,
            psc == p * sc,
            ss == s * s,
            cc == c * c,
            sc == s * c,
            g == c - s,
            p >= 0,
    {
        assert(g * g == ss + cc - 2 * sc);
        assert(g * g >= 0);
    }
    assert(r == 2 * psc) by (nonlinear_arith)
        requires
            r == 2 * (s * c * p),
            psc == p * (s * c),
    ;
    assert(q * (ss + cc) == qbb + q * rest) by (nonlinear_arith)
        requires
            qbb == q * bb,
            rest == ss + cc - bb,
    ;
}

proof fn lemma_multipliers(p: int, q: int, s: int, c: int)
    ensures
        ({
            let n1 = p * c - q * s;
            let n2 = q * c - p * s;
            &&& n2 * c - n1 * s == q * (s * s + c * c) - 2 * (p * (s * c))
            &&& n1 * c - n2 * s == p * (s * s + c * c) - 2 * (q * (s * c))
        }),
{
    let n1 = p * c - q * s;
    let n2 = q * c - p * s;
    let (ss, cc, sc) = (s * s, c * c, s * c);
    assert(n2 * c == q * cc - p * sc && n1 * s == p * sc - q * ss) by (nonlinear_arith)
        requires
            n1 == p * c - q * s,
            n2 == q * c - p * s,
            ss == s * s,
            cc == c * c,
            sc == s * c,
    ;
    assert(n1 * c == p * cc - q * sc && n2 * s == q * sc - p * ss) by (nonlinear_arith)
        requires
            n1 == p * c - q * s,
            n2 == q * c - p * s,
            ss == s * s,
            cc == c * c,
            sc == s * c,
    ;
    assert(q * (ss + cc) == q * ss + q * cc && p * (ss + cc) == p * ss + p * cc)
        by (nonlinear_arith);
}

/// No rectangle is larger than one that is about that which touches all four
/// sides.
pub proof fn lemma_both_largest(
    p: int,
    q: int,
    s: int,
    c: int,
    b: int,
    w: int,
    h: int,
    x: int,
    y: int,
)
    requires
        are_sides_and_angle(p, q, s, c, b),
        b <= 0x100_0000 * (c - s),
        2 * (s * c * p) * 0x1_ffff_ffff_ffff <= q * (b * b) * 0x2_0000_0000_0001,
        w >= 0,
        h >= 0,
        about(w * (c * c - s * s), (p * c - q * s) * b, 0x20_0000),
        about(h * (c * c - s * s), (q * c - p * s) * b, 0x20_0000),
        x >= 0,
        y >= 0,
        x * c + y * s <= p * b,
        x * s + y * c <= q * b,
    ensures
        0x8_0000 * (x * y) <= 0x8_0001 * (w * h),
{
    let n1 = p * c - q * s;
    let n2 = q * c - p * s;
    let d = c * c - s * s;
    let (bb, dd) = (b * b, d * d);
    lemma_both_matter(p, q, s, c, b);
    let (pb, qb) = (p * b, q * b);
    assert(pb > 0 && qb > 0 && bb > 0) by (nonlinear_arith)
        requires
            pb == p * b,
            qb == q * b,
            bb == b * b,
            p > 0,
            q > 0,
            b > 0,
    ;
    let nn = n1 * n2;
    let l = n2 * c - n1 * s;
    let xy = x * y;
    let limit = nn * bb;
    assert(nn > 0) by (nonlinear_arith)
        requires
            nn == n1 * n2,
            n1 > 0,
            n2 > 0,
    ;
    assert(limit > 0) by (nonlinear_arith)
        requires
            limit == nn * bb,
            nn > 0,
            bb > 0,
    ;
    assert(xy * dd * 0x100_0000 <= limit * 0x100_0001) by {
        if l >= 0 {
            lemma_both_limit(p, q, s, c, n1, n2, d, x, y, b);
        } else {
            lemma_short_limits(q, s, c, x, y, b);
            lemma_touches(p, q, s, c, n1, n2, d);
            lemma_nearly_limited(q, s, c, n1, n2, d, l, xy, b);
        }
    }
    // What the sides are off.
    let (wd, hd, t1, t2) = (w * d, h * d, n1 * b, n2 * b);
    assert(t1 > 0 && t2 > 0) by (nonlinear_arith)
        requires
            t1 == n1 * b,
            t2 == n2 * b,
            n1 > 0,
            n2 > 0,
            b > 0,
    ;
    assert(wd * hd * 0x400_0000_0000 >= t1 * t2 * 0x3ff_ffc0_0000) by (nonlinear_arith)
        requires
            wd * 0x20_0000 >= t1 * 0x1f_ffff,
            hd * 0x20_0000 >= t2 * 0x1f_ffff,
            t1 > 0,
            t2 > 0,
    {
        assert((wd * 0x20_0000) * (hd * 0x20_0000) >= (t1 * 0x1f_ffff) * (t2 * 0x1f_ffff));
        assert(t1 * t2 >= 0);
    }
    let wh = w * h;
    assert(wd * hd == wh * dd) by (nonlinear_arith)
        requires
            wd == w * d,
            hd == h * d,
            wh == w * h,
            dd == d * d,
    ;
    assert(t1 * t2 == limit) by (nonlinear_arith)
        requires
            t1 == n1 * b,
            t2 == n2 * b,
            limit == n1 * n2 * (b * b),
    ;
    assert(dd > 0) by (nonlinear_arith)
        requires
            dd == d * d,
            d > 0,
    ;
    assert(0x8_0000 * xy <= 0x8_0001 * wh) by (nonlinear_arith)
        requires
            0x8_0000 * (xy * dd) <= 0x8_0001 * (wh * dd),
            dd > 0,
    ;
}

/// Where the longer pair of sides hardly matters.
proof fn lemma_nearly_limited(
    q: int,
    s: int,
    c: int,
    n1: int,
    n2: int,
    d: int,
    l: int,
    xy: int,
    b: int,
)
    requires
        b > 0,
        q > 0,
        s >= 0,
        c >= 0,
        xy >= 0,
        n1 > 0,
        n2 > 0,
        n1 * s + n2 * c == q * d,
        l == n2 * c - n1 * s,
        l < 0,
        l * 0x4000_0000_0000 >= -(q * (b * b)),
        0x200_0000 * d >= b * b,
        4 * (xy * (s * c)) <= q * b * (q * b),
    ensures
        xy * (d * d) * 0x100_0000 <= n1 * n2 * (b * b) * 0x100_0001,
{
    let (f, g) = (n1 * s, n2 * c);
    let qd = q * d;
    let sc = s * c;
    let nn = n1 * n2;
    let (bb, dd) = (b * b, d * d);
    let qbb = q * bb;
    assert(bb > 0) by (nonlinear_arith)
        requires
            bb == b * b,
            b > 0,
    ;
    assert(0x200_0000 * qd >= qbb && qbb > 0) by (nonlinear_arith)
        requires
            0x200_0000 * d >= bb,
            qd == q * d,
            qbb == q * bb,
            q > 0,
            bb > 0,
    ;
    let gap = -l;
    assert(0 < gap && 0x10_0000 * gap <= qd);
    assert(4 * (f * g) == qd * qd - gap * gap) by (nonlinear_arith)
        requires
            f + g == qd,
            f - g == gap,
    {
        assert((f + g) * (f + g) - (f - g) * (f - g) == 4 * (f * g));
    }
    let square = qd * qd;
    assert(gap * gap * 0x100_0000_0000 <= square) by (nonlinear_arith)
        requires
            0 < gap,
            0x10_0000 * gap <= qd,
            square == qd * qd,
    ;
    assert(f * g == nn * sc) by (nonlinear_arith)
        requires
            f == n1 * s,
            g == n2 * c,
            nn == n1 * n2,
            sc == s * c,
    ;
    let qb = q * b;
    let xsc = xy * sc;
    // Both sides times twice the square of the divisor.
    assert(4 * (xsc * dd) <= square * bb) by (nonlinear_arith)
        requires
            4 * xsc <= qb * qb,
            qb == q * b,
            square == qd * qd,
            qd == q * d,
            dd == d * d,
            bb == b * b,
    {
        assert(dd >= 0);
        assert(4 * xsc * dd <= qb * qb * dd);
        assert(qb * qb * dd == square * bb);
    }
    assert(square * 0x3ff_ffff <= 4 * (nn * sc) * 0x400_0000);
    assert(square > 0 && nn > 0) by (nonlinear_arith)
        requires
            square == qd * qd,
            qd > 0,
            nn == n1 * n2,
            n1 > 0,
            n2 > 0,
    ;
    assert(sc > 0) by (nonlinear_arith)
        requires
            nn * sc > 0,
            nn > 0,
    {
        assert(sc <= 0 ==> nn * sc <= 0);
    }
    assert(square * bb * 0x3ff_ffff <= 4 * ((nn * sc) * bb) * 0x400_0000) by (nonlinear_arith)
        requires
            square * 0x3ff_ffff <= 4 * (nn * sc) * 0x400_0000,
            bb > 0,
    ;
    let left = xy * dd;
    let right = nn * bb;
    assert(xsc * dd == left * sc && (nn * sc) * bb == right * sc) by (nonlinear_arith)
        requires
            xsc == xy * sc,
            left == xy * dd,
            right == nn * bb,
    ;
    assert(left * 0x3ff_ffff <= right * 0x400_0000) by (nonlinear_arith)
        requires
            4 * (left * sc) * 0x3ff_ffff <= 4 * (right * sc) * 0x400_0000,
            sc > 0,
    ;
    assert(left >= 0 && right > 0) by (nonlinear_arith)
        requires
            left == xy * dd,
            right == nn * bb,
            xy >= 0,
            dd >= 0,
            nn > 0,
            bb > 0,
    ;
}

/// Where half the shorter side decides, the sine is not small.
pub proof fn lemma_sine_counts(p: int, q: int, s: int, c: int, b: int)
    requires
        are_sides_and_angle(p, q, s, c, b),
        q * (b * b) * 0x2000_0000_0000 <= 2 * (s * c * p) * 0x2000_0000_0001,
    ensures
        b <= 0x8_0000_0000 * s,
        s > 0,
{
    let bb = b * b;
    let qbb = q * bb;
    let bbb = bb * b;
    let sbb = s * bb;
    let r = 2 * (s * c * p);
    assert(bb > 0) by (nonlinear_arith)
        requires
            bb == b * b,
            b > 0,
    ;
    assert(bbb <= qbb) by (nonlinear_arith)
        requires
            bbb == bb * b,
            qbb == q * bb,
            b <= q,
            bb > 0,
    ;
    let sc = s * c;
    let sb = s * b;
    assert(0 <= sc <= sb) by (nonlinear_arith)
        requires
            sc == s * c,
            sb == s * b,
            0 <= s,
            0 <= c <= b,
    ;
    assert(sc * p <= 0x1_0000_0000 * (sb * b)) by (nonlinear_arith)
        requires
            0 <= sc <= sb,
            0 <= p <= 0x1_0000_0000 * b,
    {
        assert(sc * p <= sb * p);
        assert(sb * p <= sb * (0x1_0000_0000 * b));
    }
    assert(sb * b == sbb) by (nonlinear_arith)
        requires
            sb == s * b,
            sbb == s * bb,
            bb == b * b,
    ;
    assert(bbb <= 0x8_0000_0000 * sbb);
    assert(b <= 0x8_0000_0000 * s) by (nonlinear_arith)
        requires
            bb * b <= 0x8_0000_0000 * (s * bb),
            bb > 0,
    ;
}

/// A side from half the shorter side, over the sine or the cosine `e`.
pub proof fn lemma_half_about(w: int, n: int, e: int, q: int, b: int)
    requires
        b >= 0x10_0000_0000_0000_0000_0000_0000,
        b <= q,
        0 < e <= b,
        n >= 0,
        (2 * n - q) * 0x10_0000_0000_0000 <= q + 0x20_0000_0000_0000,
        (q - 2 * n) * 0x10_0000_0000_0000 <= q + 0x20_0000_0000_0000,
        (w * e - n * b) * 0x10_0000_0000_0000 <= n * b + e * 0x10_0000_0000_0000,
        (n * b - w * e) * 0x10_0000_0000_0000 <= n * b + e * 0x10_0000_0000_0000,
    ensures
        w >= 0,
        about(2 * (w * e), q * b, 0x4_0000_0000_0000),
{
    let v = q * b;
    let nb = n * b;
    let we = w * e;
    assert(v >= 0x10_0000_0000_0000_0000_0000_0000 * b) by (nonlinear_arith)
        requires
            v == q * b,
            q >= 0x10_0000_0000_0000_0000_0000_0000,
            b > 0,
    ;
    assert((2 * nb - v) * 0x10_0000_0000_0000 <= v + 0x20_0000_0000_0000 * b) by (nonlinear_arith)
        requires
            (2 * n - q) * 0x10_0000_0000_0000 <= q + 0x20_0000_0000_0000,
            v == q * b,
            nb == n * b,
            b > 0,
    {
        assert(((2 * n - q) * 0x10_0000_0000_0000) * b <= (q + 0x20_0000_0000_0000) * b);
    }
    assert((v - 2 * nb) * 0x10_0000_0000_0000 <= v + 0x20_0000_0000_0000 * b) by (nonlinear_arith)
        requires
            (q - 2 * n) * 0x10_0000_0000_0000 <= q + 0x20_0000_0000_0000,
            v == q * b,
            nb == n * b,
            b > 0,
    {
        assert(((q - 2 * n) * 0x10_0000_0000_0000) * b <= (q + 0x20_0000_0000_0000) * b);
    }
    assert(we > 0);
    assert(w >= 0) by (nonlinear_arith)
        requires
            w * e > 0,
            e > 0,
    ;
}

/// Half the shorter side decides: the rectangle fits.
pub proof fn lemma_short_fits(p: int, q: int, s: int, c: int, b: int, w: int, h: int)
    requires
        are_sides_and_angle(p, q, s, c, b),
        q * (b * b) * 0x2000_0000_0000 <= 2 * (s * c * p) * 0x2000_0000_0001,
        s > 0,
        about(2 * (w * s), q * b, 0x4_0000_0000_0000),
        about(2 * (h * c), q * b, 0x4_0000_0000_0000),
    ensures
        0x20_0000 * (w * c + h * s) <= 0x20_0001 * (p * b),
        0x20_0000 * (w * s + h * c) <= 0x20_0001 * (q * b),
{
    let v = q * b;
    let (ws, hc) = (w * s, h * c);
    let (ss, cc, bb) = (s * s, c * c, b * b);
    let sc = s * c;
    let t = w * c + h * s;
    let pb = p * b;
    assert(v > 0 && pb > 0 && sc > 0 && ss >= 0 && cc >= 0) by (nonlinear_arith)
        requires
            v == q * b,
            pb == p * b,
            sc == s * c,
            ss == s * s,
            cc == c * c,
            b > 0,
            q > 0,
            p > 0,
            s > 0,
            c > 0,
    ;
    lemma_across(w, h, s, c);
    let (x1, x2) = (ws * cc, hc * ss);
    assert(t * sc == x1 + x2);
    let (v1, v2) = (v * cc, v * ss);
    assert(2 * x1 * 0x4_0000_0000_0000 <= v1 * 0x4_0000_0000_0001) by (nonlinear_arith)
        requires
            2 * ws * 0x4_0000_0000_0000 <= v * 0x4_0000_0000_0001,
            x1 == ws * cc,
            v1 == v * cc,
            cc >= 0,
    {
        assert((2 * ws * 0x4_0000_0000_0000) * cc <= (v * 0x4_0000_0000_0001) * cc);
    }
    assert(2 * x2 * 0x4_0000_0000_0000 <= v2 * 0x4_0000_0000_0001) by (nonlinear_arith)
        requires
            2 * hc * 0x4_0000_0000_0000 <= v * 0x4_0000_0000_0001,
            x2 == hc * ss,
            v2 == v * ss,
            ss >= 0,
    {
        assert((2 * hc * 0x4_0000_0000_0000) * ss <= (v * 0x4_0000_0000_0001) * ss);
    }
    let z = v * bb;
    assert((v1 + v2) * 0x1_0000_0000_0000 <= z * 0x1_0000_0000_0001) by (nonlinear_arith)
        requires
            (ss + cc) * 0x1_0000_0000_0000 <= bb * 0x1_0000_0000_0001,
            v1 == v * cc,
            v2 == v * ss,
            z == v * bb,
            v > 0,
    {
        assert(v * ((ss + cc) * 0x1_0000_0000_0000) <= v * (bb * 0x1_0000_0000_0001));
    }
    let qbb = q * bb;
    let scp = sc * p;
    assert(z == qbb * b) by (nonlinear_arith)
        requires
            z == v * bb,
            v == q * b,
            qbb == q * bb,
    ;
    assert(scp * b == sc * pb) by (nonlinear_arith)
        requires
            scp == sc * p,
            pb == p * b,
    ;
    let y = sc * pb;
    assert(z * 0x2000_0000_0000 <= 2 * y * 0x2000_0000_0001) by (nonlinear_arith)
        requires
            qbb * 0x2000_0000_0000 <= 2 * scp * 0x2000_0000_0001,
            z == qbb * b,
            y == scp * b,
            b > 0,
    {
        assert((qbb * 0x2000_0000_0000) * b <= (2 * scp * 0x2000_0000_0001) * b);
    }
    assert(y > 0) by (nonlinear_arith)
        requires
            y == sc * pb,
            sc > 0,
            pb > 0,
    ;
    assert(0x20_0000 * (t * sc) <= 0x20_0001 * y);
    assert(0x20_0000 * t <= 0x20_0001 * pb) by (nonlinear_arith)
        requires
            0x20_0000 * (t * sc) <= 0x20_0001 * (sc * pb),
            sc > 0,
    {
        assert((0x20_0000 * t) * sc <= (0x20_0001 * pb) * sc);
    }
}

proof fn lemma_across(w: int, h: int, s: int, c: int)
    ensures
        (w * c + h * s) * (s * c) == (w * s) * (c * c) + (h * c) * (s * s),
{
    let sc = s * c;
    assert((w * c + h * s) * sc == (w * c) * sc + (h * s) * sc) by (nonlinear_arith);
    lemma_swapped(w, c, s, c);
    lemma_swapped(h, s, c, s);
    assert(c * s == s * c) by (nonlinear_arith);
}

/// Half the shorter side decides: no rectangle that fits is larger.
pub proof fn lemma_short_largest(
    q: int,
    s: int,
    c: int,
    b: int,
    w: int,
    h: int,
    x: int,
    y: int,
)
    requires
        b > 0,
        q > 0,
        0 < s <= c,
        w >= 0,
        h >= 0,
        about(2 * (w * s), q * b, 0x4_0000_0000_0000),
        about(2 * (h * c), q * b, 0x4_0000_0000_0000),
        x >= 0,
        y >= 0,
        x * s + y * c <= q * b,
    ensures
        0x8_0000 * (x * y) <= 0x8_0001 * (w * h),
{
    let v = q * b;
    let (f, g) = (2 * (w * s), 2 * (h * c));
    let sc = s * c;
    let (xy, wh) = (x * y, w * h);
    let vv = v * v;
    lemma_short_limits(q, s, c, x, y, b);
    assert(v > 0 && sc > 0) by (nonlinear_arith)
        requires
            v == q * b,
            sc == s * c,
            q > 0,
            b > 0,
            s > 0,
            c > 0,
    ;
    let fg = f * g;
    assert(vv * 0xf_ffff_ffff_fff8_0000_0000_0001 <= fg
        * 0x10_0000_0000_0000_0000_0000_0000) by (nonlinear_arith)
        requires
            v * 0x3_ffff_ffff_ffff <= f * 0x4_0000_0000_0000,
            v * 0x3_ffff_ffff_ffff <= g * 0x4_0000_0000_0000,
            vv == v * v,
            fg == f * g,
            v > 0,
    {
        let (l, m, n) = (v * 0x3_ffff_ffff_ffff, f * 0x4_0000_0000_0000, g * 0x4_0000_0000_0000);
        assert(l * l <= m * n);
    }
    assert(vv > 0) by (nonlinear_arith)
        requires
            vv == v * v,
            v > 0,
    ;
    lemma_swapped(w, s, h, c);
    assert(fg == 4 * ((w * s) * (h * c))) by (nonlinear_arith)
        requires
            fg == f * g,
            f == 2 * (w * s),
            g == 2 * (h * c),
    ;
    assert(4 * (xy * sc) <= vv);
    assert(fg == 4 * (wh * sc));
    assert(0x8_0000 * (xy * sc) <= 0x8_0001 * (wh * sc));
    assert(0x8_0000 * xy <= 0x8_0001 * wh) by (nonlinear_arith)
        requires
            0x8_0000 * (xy * sc) <= 0x8_0001 * (wh * sc),
            sc > 0,
    {
        assert((0x8_0000 * xy) * sc <= (0x8_0001 * wh) * sc);
    }
}

/// Both pairs of sides limit the rectangle: it fits.
pub proof fn lemma_both_fit(p: int, q: int, s: int, c: int, b: int, w: int, h: int)
    requires
        are_sides_and_angle(p, q, s, c, b),
        b <= 0x100_0000 * (c - s),
        2 * (s * c * p) * 0x1_ffff_ffff_ffff <= q * (b * b) * 0x2_0000_0000_0001,
        about(w * (c * c - s * s), (p * c - q * s) * b, 0x20_0000),
        about(h * (c * c - s * s), (q * c - p * s) * b, 0x20_0000),
    ensures
        0x20_0000 * (w * c + h * s) <= 0x20_0001 * (p * b),
        0x20_0000 * (w * s + h * c) <= 0x20_0001 * (q * b),
{
    let n1 = p * c - q * s;
    let n2 = q * c - p * s;
    let d = c * c - s * s;
    lemma_both_matter(p, q, s, c, b);
    lemma_touches(p, q, s, c, n1, n2, d);
    assert(b * b > 0 && p * b > 0 && q * b > 0) by (nonlinear_arith)
        requires
            b > 0,
            p > 0,
            q > 0,
    ;
    lemma_fits(w, h, n1, n2, c, s, p, d, b);
    lemma_fits(w, h, n1, n2, s, c, q, d, b);
}

} // verus!
