//! How far rounding carries the tangents of a curve. All numbers are sizes in
//! units, of which `b` make one; a result that is rounded differs from the
//! exact one by one part in 2^23 and one unit at most.

use vstd::prelude::*;

verus! {

proof fn lemma_times(x: int, y: int, z: int)
    requires
        x <= y,
        z >= 0,
    ensures
        x * z <= y * z,
{
    assert(x * z <= y * z) by (nonlinear_arith)
        requires
            x <= y,
            z >= 0,
    ;
}

proof fn lemma_squares(x: int, y: int)
    requires
        0 <= x <= y,
    ensures
        x * x <= y * y,
{
    assert(x * x <= y * y) by (nonlinear_arith)
        requires
            0 <= x <= y,
    ;
}

proof fn lemma_cancel(x: int, y: int, z: int)
    requires
        x * z <= y * z,
        z > 0,
    ensures
        x <= y,
{
    assert(x <= y) by (nonlinear_arith)
        requires
            x * z <= y * z,
            z > 0,
    ;
}

/// The square of a ratio, from the sum of it and another square.
proof fn lemma_square_part(a: int, sq: int, m: int, b: int)
    requires
        0 <= a,
        0 <= sq,
        b > 0,
        a * a * 8388608 <= sq * b * 8388609 + b * 8388608,
        sq * 8388607 <= m * 8388608 + 8388608,
    ensures
        a * a * 8388607 <= 8388609 * (m * b) + 16777216 * b,
{
    lemma_times(sq * 8388607, m * 8388608 + 8388608, b);
    assert(sq * 8388607 * b == 8388607 * (sq * b)) by (nonlinear_arith);
    assert((m * 8388608 + 8388608) * b == 8388608 * (m * b) + 8388608 * b) by (nonlinear_arith);
}

/// A tangent that is left as it is is at most three times the slope.
pub proof fn lemma_left(f: int, s: int, a: int, sq: int, m: int, b: int)
    requires
        0 <= f,
        0 <= s,
        0 <= a,
        0 <= sq,
        b >= 18446744073709551616,
        f * b * 8388608 <= a * s * 8388609 + s * 8388608,
        a * a * 8388608 <= sq * b * 8388609 + b * 8388608,
        sq * 8388607 <= m * 8388608 + 8388608,
        m <= 9 * b,
    ensures
        f * 8388608 <= s * 25165834,
{
    lemma_square_part(a, sq, m, b);
    let aa = a * a;
    let bb = b * b;
    lemma_times(m, 9 * b, b);
    assert(9 * b * b == 9 * bb) by (nonlinear_arith)
        requires
            bb == b * b,
    ;
    assert(bb >= 18446744073709551616 * b) by (nonlinear_arith)
        requires
            bb == b * b,
            b >= 18446744073709551616,
    ;
    if a * 8388608 > b * 25165830 {
        lemma_squares(b * 25165830, a * 8388608);
        assert((b * 25165830) * (b * 25165830) == 633318999588900 * bb) by (nonlinear_arith)
            requires
                bb == b * b,
        ;
        assert((a * 8388608) * (a * 8388608) == 70368744177664 * aa) by (nonlinear_arith)
            requires
                aa == a * a,
        ;
        assert(false);
    }
    lemma_times(a * 8388608, b * 25165830, s);
    assert(a * 8388608 * s == 8388608 * (a * s)) by (nonlinear_arith);
    assert(b * 25165830 * s == 25165830 * (b * s)) by (nonlinear_arith);
    assert(18446744073709551616 * s <= b * s) by (nonlinear_arith)
        requires
            b >= 18446744073709551616,
            s >= 0,
    ;
    let bs = b * s;
    let fb = f * b;
    assert(fb * 8388608 <= bs * 25165834);
    assert(fb * 8388608 == f * 8388608 * b) by (nonlinear_arith)
        requires
            fb == f * b,
    ;
    assert(bs * 25165834 == s * 25165834 * b) by (nonlinear_arith)
        requires
            bs == b * s,
    ;
    lemma_cancel(f * 8388608, s * 25165834, b);
}

/// The root of the sum of the squares is at least as large as a ratio.
proof fn lemma_root_part(a: int, sq: int, m: int, r: int, b: int)
    requires
        0 <= a,
        0 <= sq,
        0 < r,
        b >= 18446744073709551616,
        a * a * 8388608 <= sq * b * 8388609 + b * 8388608,
        sq * 8388607 <= m * 8388608 + 8388608,
        m > 9 * b,
        4 * (m * b) * 70368744177664 <= r * r * 281475010265089,
    ensures
        a * 8388608 <= r * 8388613,
{
    lemma_square_part(a, sq, m, b);
    let aa = a * a;
    let rr = r * r;
    let mb = m * b;
    assert(mb >= 18446744073709551616 * b) by (nonlinear_arith)
        requires
            mb == m * b,
            m > 9 * b,
            b >= 18446744073709551616,
    ;
    assert(rr > 0) by (nonlinear_arith)
        requires
            rr == r * r,
            r > 0,
    ;
    assert(aa * 8388607 <= 8388610 * mb);
    assert(mb * 281474976710656 <= rr * 281475010265089);
    if a * 8388608 > r * 8388613 {
        lemma_squares(r * 8388613, a * 8388608);
        assert((r * 8388613) * (r * 8388613) == 70368828063769 * rr) by (nonlinear_arith)
            requires
                rr == r * r,
        ;
        assert((a * 8388608) * (a * 8388608) == 70368744177664 * aa) by (nonlinear_arith)
            requires
                aa == a * a,
        ;
        assert(false);
    }
}

/// A tangent that is scaled down is at most three times the slope, and no
/// larger than before.
pub proof fn lemma_scaled_down(
    f: int,
    s: int,
    a: int,
    sq: int,
    m: int,
    r: int,
    sc: int,
    y: int,
    f2: int,
    b: int,
)
    requires
        0 <= f,
        70368744177664 <= s <= 1024 * b,
        0 <= a,
        0 <= sq,
        0 < r,
        0 <= sc,
        0 <= y,
        0 <= f2,
        b >= 340282366920938463463374607431768211456,
        a * s * 8388608 <= f * b * 8388609 + s * 8388608,
        a * a * 8388608 <= sq * b * 8388609 + b * 8388608,
        sq * 8388607 <= m * 8388608 + 8388608,
        9 * b < m <= 1267650600228229401496703205376 * b,
        4 * (m * b) * 70368744177664 <= r * r * 281475010265089,
        r * r <= 4 * (m * b),
        sc * r * 8388608 <= 3 * (b * b) * 8388609 + r * 8388608,
        y * b * 8388608 <= sc * a * 8388609 + b * 8388608,
        f2 * b * 8388608 <= y * s * 8388609 + b * 8388608,
    ensures
        f2 * 8388608 <= s * 25165852,
        f2 * 8388608 <= f * 8388615 + 25778192384,
{
    let bb = b * b;
    let mb = m * b;
    let rr = r * r;
    lemma_root_part(a, sq, m, r, b);
    assert(bb >= 340282366920938463463374607431768211456 * b) by (nonlinear_arith)
        requires
            bb == b * b,
            b >= 340282366920938463463374607431768211456,
    ;
    assert(mb <= 1267650600228229401496703205376 * bb) by (nonlinear_arith)
        requires
            mb == m * b,
            bb == b * b,
            m <= 1267650600228229401496703205376 * b,
            b >= 0,
    ;
    assert(mb > 9 * bb) by (nonlinear_arith)
        requires
            mb == m * b,
            bb == b * b,
            m > 9 * b,
            b > 0,
    ;
    if r > 2251799813685248 * b {
        lemma_squares(2251799813685248 * b + 1, r);
        assert((2251799813685248 * b + 1) * (2251799813685248 * b + 1) == 5070602400912917605986812821504 * bb + 4503599627370496 * b + 1) by (nonlinear_arith)
            requires
                bb == b * b,
        ;
        assert(false);
    }
    assert(r * 8388608 <= bb);
    let scr = sc * r;
    let sca = sc * a;
    assert(sca * 8388608 <= scr * 8388613) by {
        lemma_times(a * 8388608, r * 8388613, sc);
        assert(a * 8388608 * sc == 8388608 * sca) by (nonlinear_arith)
            requires
                sca == sc * a,
        ;
        assert(r * 8388613 * sc == 8388613 * scr) by (nonlinear_arith)
            requires
                scr == sc * r,
        ;
    }
    assert(scr * 8388608 <= bb * 25165828);
    assert(sca * 8388608 <= bb * 25165844);
    let yb = y * b;
    assert(yb * 8388608 <= bb * 25165848);
    assert(y * 8388608 <= b * 25165848) by {
        assert(yb * 8388608 == y * 8388608 * b) by (nonlinear_arith)
            requires
                yb == y * b,
        ;
        assert(bb * 25165848 == b * 25165848 * b) by (nonlinear_arith)
            requires
                bb == b * b,
        ;
        lemma_cancel(y * 8388608, b * 25165848, b);
    }
    let ys = y * s;
    let bs = b * s;
    assert(ys * 8388608 <= bs * 25165848) by {
        lemma_times(y * 8388608, b * 25165848, s);
        assert(y * 8388608 * s == 8388608 * ys) by (nonlinear_arith)
            requires
                ys == y * s,
        ;
        assert(b * 25165848 * s == 25165848 * bs) by (nonlinear_arith)
            requires
                bs == b * s,
        ;
    }
    assert(bs >= 70368744177664 * b) by (nonlinear_arith)
        requires
            bs == b * s,
            s >= 70368744177664,
            b >= 0,
    ;
    let fb2 = f2 * b;
    assert(fb2 * 8388608 <= bs * 25165852);
    assert(f2 * 8388608 <= s * 25165852) by {
        assert(fb2 * 8388608 == f2 * 8388608 * b) by (nonlinear_arith)
            requires
                fb2 == f2 * b,
        ;
        assert(bs * 25165852 == s * 25165852 * b) by (nonlinear_arith)
            requires
                bs == b * s,
        ;
        lemma_cancel(f2 * 8388608, s * 25165852, b);
    }
    lemma_no_larger(f, s, a, m, r, sc, y, f2, b);
}

/// Scaling a tangent down makes it no larger.
proof fn lemma_no_larger(f: int, s: int, a: int, m: int, r: int, sc: int, y: int, f2: int, b: int)
    requires
        0 <= f,
        0 <= s <= 1024 * b,
        0 <= a,
        0 < r,
        0 <= sc,
        0 <= y,
        0 <= f2,
        b >= 340282366920938463463374607431768211456,
        a * s * 8388608 <= f * b * 8388609 + s * 8388608,
        9 * b < m,
        4 * (m * b) * 70368744177664 <= r * r * 281475010265089,
        sc * r * 8388608 <= 3 * (b * b) * 8388609 + r * 8388608,
        y * b * 8388608 <= sc * a * 8388609 + b * 8388608,
        f2 * b * 8388608 <= y * s * 8388609 + b * 8388608,
    ensures
        f2 * 8388608 <= f * 8388615 + 25778192384,
{
    let bb = b * b;
    let mb = m * b;
    let rr = r * r;
    assert(mb > 9 * bb) by (nonlinear_arith)
        requires
            mb == m * b,
            bb == b * b,
            m > 9 * b,
            b > 0,
    ;
    if b * 50331648 > r * 16777217 {
        lemma_squares(r * 16777217, b * 50331648);
        assert((r * 16777217) * (r * 16777217) == 281475010265089 * rr) by (nonlinear_arith)
            requires
                rr == r * r,
        ;
        assert((b * 50331648) * (b * 50331648) == 2533274790395904 * bb) by (nonlinear_arith)
            requires
                bb == b * b,
        ;
        assert(mb * 281474976710656 <= rr * 281475010265089);
        assert(false);
    }
    let br = b * r;
    let scr = sc * r;
    assert(bb * 50331648 <= br * 16777217) by {
        lemma_times(b * 50331648, r * 16777217, b);
        assert(b * 50331648 * b == 50331648 * bb) by (nonlinear_arith)
            requires
                bb == b * b,
        ;
        assert(r * 16777217 * b == 16777217 * br) by (nonlinear_arith)
            requires
                br == b * r,
        ;
    }
    assert(br >= 340282366920938463463374607431768211456 * r) by (nonlinear_arith)
        requires
            br == b * r,
            b >= 340282366920938463463374607431768211456,
            r > 0,
    ;
    assert(scr * 8388608 <= br * 8388610);
    assert(sc * 8388608 <= b * 8388610) by {
        assert(scr * 8388608 == sc * 8388608 * r) by (nonlinear_arith)
            requires
                scr == sc * r,
        ;
        assert(br * 8388610 == b * 8388610 * r) by (nonlinear_arith)
            requires
                br == b * r,
        ;
        lemma_cancel(sc * 8388608, b * 8388610, r);
    }
    let sca = sc * a;
    let ab = a * b;
    assert(sca * 8388608 <= ab * 8388610) by {
        lemma_times(sc * 8388608, b * 8388610, a);
        assert(sc * 8388608 * a == 8388608 * sca) by (nonlinear_arith)
            requires
                sca == sc * a,
        ;
        assert(b * 8388610 * a == 8388610 * ab) by (nonlinear_arith)
            requires
                ab == a * b,
        ;
    }
    let yb = y * b;
    assert(ab >= 0) by (nonlinear_arith)
        requires
            ab == a * b,
            a >= 0,
            b >= 0,
    ;
    assert(yb * 8388608 <= ab * 8388612 + b * 8388608);
    assert(y * 8388608 <= a * 8388612 + 8388608) by {
        assert(yb * 8388608 == y * 8388608 * b) by (nonlinear_arith)
            requires
                yb == y * b,
        ;
        assert(ab * 8388612 + b * 8388608 == (a * 8388612 + 8388608) * b) by (nonlinear_arith)
            requires
                ab == a * b,
        ;
        lemma_cancel(y * 8388608, a * 8388612 + 8388608, b);
    }
    let ys = y * s;
    let sa = a * s;
    assert(ys * 8388608 <= sa * 8388612 + s * 8388608) by {
        lemma_times(y * 8388608, a * 8388612 + 8388608, s);
        assert(y * 8388608 * s == 8388608 * ys) by (nonlinear_arith)
            requires
                ys == y * s,
        ;
        assert((a * 8388612 + 8388608) * s == sa * 8388612 + s * 8388608) by (nonlinear_arith)
            requires
                sa == a * s,
        ;
    }
    let fb = f * b;
    let fb2 = f2 * b;
    assert(fb >= 0) by (nonlinear_arith)
        requires
            fb == f * b,
            f >= 0,
            b >= 0,
    ;
    assert(fb2 * 8388608 <= fb * 8388615 + b * 25778192384);
    assert(fb2 * 8388608 == f2 * 8388608 * b) by (nonlinear_arith)
        requires
            fb2 == f2 * b,
    ;
    assert(fb * 8388615 + b * 25778192384 == (f * 8388615 + 25778192384) * b) by (nonlinear_arith)
        requires
            fb == f * b,
    ;
    lemma_cancel(f2 * 8388608, f * 8388615 + 25778192384, b);
}

/// A tangent over an interval rises at most three times as far as the curve.
pub proof fn lemma_rise(d: int, df: int, s: int, i: int, f: int, b: int, w: int)
    requires
        0 <= d <= b,
        0 <= df,
        0 <= s,
        0 <= i <= b,
        0 <= f,
        b == 65536 * w,
        w >= 18446744073709551616,
        df * 8388608 <= d * 8388609 + 8388608,
        s * i * 8388608 <= df * b * 8388609 + i * 8388608,
        f * 8388608 <= s * 25165884,
    ensures
        f * i <= 3 * (b * d) + b * w,
{
    let bd = b * d;
    let si = s * i;
    let fi = f * i;
    let dfb = df * b;
    let bw = b * w;
    lemma_times(df * 8388608, d * 8388609 + 8388608, b);
    assert(df * 8388608 * b == 8388608 * dfb) by (nonlinear_arith)
        requires
            dfb == df * b,
    ;
    assert((d * 8388609 + 8388608) * b == 8388609 * bd + 8388608 * b) by (nonlinear_arith)
        requires
            bd == b * d,
    ;
    assert(si * 8388608 <= bd * 8388611 + b * 25165824);
    lemma_times(f * 8388608, s * 25165884, i);
    assert(f * 8388608 * i == 8388608 * fi) by (nonlinear_arith)
        requires
            fi == f * i,
    ;
    assert(s * 25165884 * i == 25165884 * si) by (nonlinear_arith)
        requires
            si == s * i,
    ;
    assert(bd <= 65536 * bw) by (nonlinear_arith)
        requires
            bd == b * d,
            bw == b * w,
            d <= b,
            b == 65536 * w,
            b >= 0,
    ;
    assert(bw >= 18446744073709551616 * b) by (nonlinear_arith)
        requires
            bw == b * w,
            w >= 18446744073709551616,
            b >= 0,
    ;
    assert(fi * 70368744177664 <= 25165884 * (bd * 8388611 + b * 25165824));
    assert(fi <= 3 * bd + bw);
}

} // verus!
