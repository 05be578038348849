//! How much wide numbers differ where what they are made of differs.

use vstd::prelude::*;

use crate::number::wide::Wide;
use crate::number::wide_bounds;
use crate::render::form_arithmetic;
use crate::render::interval_arithmetic;
use crate::render::locus_laws;
use crate::render::white_balance;

verus! {

/// Whether something rises by an amount over a step: by the step, times a
/// number of millionths between two bounds, but for some parts.
pub open spec fn rises(rise: int, step: int, low: int, high: int, e: int) -> bool {
    let off = e * (1_000_000 * form_arithmetic::part());
    low * step - off <= 1_000_000 * rise <= high * step + off
}

/// The rise of a product: `x` and `y` are the factors at the upper end, and
/// `v` and `w` those at the lower; `p` and `q` nearly are the products.
proof fn lemma_product_values(
    x: int,
    y: int,
    v: int,
    w: int,
    p: int,
    q: int,
    a: int,
    b: int,
    c: int,
    d: int,
    fl: int,
    fh: int,
    low: int,
    high: int,
    e: int,
    u: int,
)
    requires
        u == form_arithmetic::part(),
        u > 0,
        v <= x,
        a * u <= x <= b * u,
        0 <= a,
        b <= 0x100_0000_0000,
        c * u <= w <= d * u,
        0 <= e,
        0 <= fl <= fh,
        rises(y - w, x - v, fl, fh, e),
        low * 0x100_0000_0000 <= a * fl + c * 1_000_000,
        b * fh + d * 1_000_000 <= high * 0x100_0000_0000,
        ({
            let one = 0x100_0000_0000 * u;
            &&& -(one * u) <= p * one - x * y <= one * u
            &&& -(one * u) <= q * one - v * w <= one * u
        }),
    ensures
        rises(p - q, x - v, low, high, e + 2),
{
    let one = 0x100_0000_0000 * u;
    let step = x - v;
    let rise = y - w;
    let eu = e * (1_000_000 * u);
    let (xr, sw) = (x * rise, step * w);
    assert(x * y - v * w == xr + sw) by (nonlinear_arith)
        requires
            xr == x * rise,
            sw == step * w,
            step == x - v,
            rise == y - w,
    ;
    let us = u * step;
    assert(us >= 0 && x >= 0 && eu >= 0) by (nonlinear_arith)
        requires
            us == u * step,
            u > 0,
            step >= 0,
            a * u <= x,
            a >= 0,
            e >= 0,
            eu == e * (1_000_000 * u),
    ;
    assert(c * us <= sw <= d * us) by (nonlinear_arith)
        requires
            sw == step * w,
            us == u * step,
            c * u <= w <= d * u,
            step >= 0,
    {
        assert(step * (c * u) <= step * w);
        assert(step * w <= step * (d * u));
    }
    let (ls, hs) = (fl * step, fh * step);
    let xe = x * eu;
    assert(0 <= ls && 0 <= hs) by (nonlinear_arith)
        requires
            ls == fl * step,
            hs == fh * step,
            0 <= fl <= fh,
            step >= 0,
    ;
    let (xl, xh) = (x * ls, x * hs);
    assert(xl - xe <= 1_000_000 * xr <= xh + xe) by (nonlinear_arith)
        requires
            ls - eu <= 1_000_000 * rise <= hs + eu,
            xr == x * rise,
            xe == x * eu,
            xl == x * ls,
            xh == x * hs,
            x >= 0,
    {
        assert(x * (ls - eu) <= x * (1_000_000 * rise));
        assert(x * (1_000_000 * rise) <= x * (hs + eu));
    }
    let (af, bf) = (a * fl, b * fh);
    assert(af * us <= xl) by (nonlinear_arith)
        requires
            af == a * fl,
            xl == x * ls,
            ls == fl * step,
            us == u * step,
            a * u <= x,
            ls >= 0,
    {
        assert((a * u) * ls <= x * ls);
        assert((a * u) * (fl * step) == (a * fl) * (u * step));
    }
    assert(xh <= bf * us) by (nonlinear_arith)
        requires
            bf == b * fh,
            xh == x * hs,
            hs == fh * step,
            us == u * step,
            x <= b * u,
            hs >= 0,
    {
        assert(x * hs <= (b * u) * hs);
        assert((b * u) * (fh * step) == (b * fh) * (u * step));
    }
    assert(xe <= one * eu) by (nonlinear_arith)
        requires
            xe == x * eu,
            x <= b * u,
            b <= 0x100_0000_0000,
            one == 0x100_0000_0000 * u,
            eu >= 0,
            u > 0,
    ;
    let (lu, hu) = ((af + c * 1_000_000) * us, (bf + d * 1_000_000) * us);
    assert(lu == af * us + 1_000_000 * (c * us) && hu == bf * us + 1_000_000 * (d * us))
        by (nonlinear_arith)
        requires
            lu == (af + c * 1_000_000) * us,
            hu == (bf + d * 1_000_000) * us,
    ;
    let (lo, ho) = (low * step, high * step);
    assert(one * lo <= lu && hu <= one * ho) by (nonlinear_arith)
        requires
            lu == (af + c * 1_000_000) * us,
            hu == (bf + d * 1_000_000) * us,
            low * 0x100_0000_0000 <= af + c * 1_000_000,
            bf + d * 1_000_000 <= high * 0x100_0000_0000,
            lo == low * step,
            ho == high * step,
            one == 0x100_0000_0000 * u,
            us == u * step,
            us >= 0,
    {
        assert((low * 0x100_0000_0000) * us <= (af + c * 1_000_000) * us);
        assert((bf + d * 1_000_000) * us <= (high * 0x100_0000_0000) * us);
        assert((0x100_0000_0000 * u) * (low * step) == (low * 0x100_0000_0000) * (u * step));
        assert((0x100_0000_0000 * u) * (high * step) == (high * 0x100_0000_0000) * (u * step));
    }
    let gap = p - q;
    let (og, oe, ou) = (one * gap, one * eu, one * u);
    assert(og == p * one - q * one) by (nonlinear_arith)
        requires
            og == one * gap,
            gap == p - q,
    ;
    assert(one * lo - oe - 2_000_000 * ou <= 1_000_000 * og <= one * ho + oe + 2_000_000 * ou);
    let more = (e + 2) * (1_000_000 * u);
    assert(more == eu + 2_000_000 * u) by (nonlinear_arith)
        requires
            more == (e + 2) * (1_000_000 * u),
            eu == e * (1_000_000 * u),
    ;
    assert(lo - more <= 1_000_000 * gap <= ho + more) by (nonlinear_arith)
        requires
            one * lo - oe - 2_000_000 * ou <= 1_000_000 * og <= one * ho + oe + 2_000_000 * ou,
            og == one * gap,
            oe == one * eu,
            ou == one * u,
            more == eu + 2_000_000 * u,
            one > 0,
    {
        assert(one * (lo - more) <= one * (1_000_000 * gap));
        assert(one * (1_000_000 * gap) <= one * (ho + more));
    }
}

/// A product of numbers of limited size, against the exact one.
pub proof fn lemma_product_agrees(v: Wide, w: Wide)
    requires
        interval_arithmetic::lies(v, -0x1000_0000_0000, 0x1000_0000_0000),
        interval_arithmetic::lies(w, -0x200_0000_0000, 0x200_0000_0000),
    ensures
        v.product(w).finite(),
        ({
            let (u, one) = (form_arithmetic::part(), wide_bounds::one());
            let off = wide_bounds::exact(v.product(w)) * one - wide_bounds::exact(v)
                * wide_bounds::exact(w);
            -(one * u) <= off <= one * u
        }),
{
    let (u, one) = (form_arithmetic::part(), wide_bounds::one());
    let (x, y) = (wide_bounds::exact(v), wide_bounds::exact(w));
    form_arithmetic::lemma_parts();
    interval_arithmetic::lemma_moderate(v, -0x1000_0000_0000, 0x1000_0000_0000);
    interval_arithmetic::lemma_moderate(w, -0x200_0000_0000, 0x200_0000_0000);
    wide_bounds::a_product_is_close(v, w);
    let (xy, ou) = (x * y, one * u);
    assert(-(0x2000_0000_0000 * ou) <= xy <= 0x2000_0000_0000 * ou && ou >= 16 * one)
        by (nonlinear_arith)
        requires
            xy == x * y,
            ou == one * u,
            -(0x1000_0000_0000 * u) <= x <= 0x1000_0000_0000 * u,
            -2 * one <= y <= 2 * one,
            one > 0,
            u >= 16,
    {
        let top = 0x1000_0000_0000 * u;
        assert((top - x) * (2 * one + y) >= 0);
        assert((top + x) * (2 * one - y) >= 0);
        assert((top - x) * (2 * one - y) >= 0);
        assert((top + x) * (2 * one + y) >= 0);
    }
}

/// The rise of a product of numbers from zero to one.
proof fn lemma_product_rise(
    big: Wide,
    f: Wide,
    small: Wide,
    g: Wide,
    a: int,
    b: int,
    c: int,
    d: int,
    fl: int,
    fh: int,
    low: int,
    high: int,
    e: int,
)
    requires
        interval_arithmetic::lies(big, a, b),
        interval_arithmetic::lies(g, c, d),
        interval_arithmetic::lies(f, 0, 0x100_0000_0000),
        interval_arithmetic::lies(small, 0, 0x100_0000_0000),
        0 <= a,
        b <= 0x100_0000_0000,
        0 <= c,
        d <= 0x100_0000_0000,
        0 <= e,
        0 <= fl <= fh,
        wide_bounds::exact(small) <= wide_bounds::exact(big),
        rises(
            wide_bounds::exact(f) - wide_bounds::exact(g),
            wide_bounds::exact(big) - wide_bounds::exact(small),
            fl,
            fh,
            e,
        ),
        low * 0x100_0000_0000 <= a * fl + c * 1_000_000,
        b * fh + d * 1_000_000 <= high * 0x100_0000_0000,
    ensures
        big.product(f).finite(),
        small.product(g).finite(),
        rises(
            wide_bounds::exact(big.product(f)) - wide_bounds::exact(small.product(g)),
            wide_bounds::exact(big) - wide_bounds::exact(small),
            low,
            high,
            e + 2,
        ),
{
    form_arithmetic::lemma_parts();
    interval_arithmetic::lemma_wider(big, a, b, -0x1000_0000_0000, 0x1000_0000_0000);
    interval_arithmetic::lemma_wider(g, c, d, -0x200_0000_0000, 0x200_0000_0000);
    interval_arithmetic::lemma_wider(f, 0, 0x100_0000_0000, -0x200_0000_0000, 0x200_0000_0000);
    interval_arithmetic::lemma_wider(
        small,
        0,
        0x100_0000_0000,
        -0x1000_0000_0000,
        0x1000_0000_0000,
    );
    lemma_product_agrees(big, f);
    lemma_product_agrees(small, g);
    lemma_product_values(
        wide_bounds::exact(big),
        wide_bounds::exact(f),
        wide_bounds::exact(small),
        wide_bounds::exact(g),
        wide_bounds::exact(big.product(f)),
        wide_bounds::exact(small.product(g)),
        a,
        b,
        c,
        d,
        fl,
        fh,
        low,
        high,
        e,
        form_arithmetic::part(),
    );
}

/// The rise of a multiple: `k` is what is multiplied by.
proof fn lemma_multiple_values(
    k: int,
    y: int,
    w: int,
    p: int,
    q: int,
    step: int,
    c: int,
    d: int,
    fl: int,
    fh: int,
    low: int,
    high: int,
    e: int,
    u: int,
)
    requires
        u == form_arithmetic::part(),
        u > 0,
        step >= 0,
        0 <= c,
        c * u <= k <= d * u,
        d <= 0x1000_0000_0000,
        0 <= e,
        0 <= fl <= fh,
        rises(y - w, step, fl, fh, e),
        low * 0x100_0000_0000 <= c * fl,
        d * fh <= high * 0x100_0000_0000,
        ({
            let one = 0x100_0000_0000 * u;
            &&& -(one * u) <= p * one - k * y <= one * u
            &&& -(one * u) <= q * one - k * w <= one * u
        }),
    ensures
        rises(p - q, step, low, high, 16 * e + 2),
{
    let one = 0x100_0000_0000 * u;
    let rise = y - w;
    let eu = e * (1_000_000 * u);
    let kr = k * rise;
    assert(k * y - k * w == kr) by (nonlinear_arith)
        requires
            kr == k * rise,
            rise == y - w,
    ;
    let us = u * step;
    let (ls, hs) = (fl * step, fh * step);
    assert(us >= 0 && k >= 0 && eu >= 0 && ls >= 0 && hs >= 0) by (nonlinear_arith)
        requires
            us == u * step,
            u > 0,
            step >= 0,
            c * u <= k,
            c >= 0,
            e >= 0,
            eu == e * (1_000_000 * u),
            ls == fl * step,
            hs == fh * step,
            0 <= fl <= fh,
    ;
    let ke = k * eu;
    let (kl, kh) = (k * ls, k * hs);
    assert(kl - ke <= 1_000_000 * kr <= kh + ke) by (nonlinear_arith)
        requires
            ls - eu <= 1_000_000 * rise <= hs + eu,
            kr == k * rise,
            ke == k * eu,
            kl == k * ls,
            kh == k * hs,
            k >= 0,
    {
        assert(k * (ls - eu) <= k * (1_000_000 * rise));
        assert(k * (1_000_000 * rise) <= k * (hs + eu));
    }
    let (cf, df) = (c * fl, d * fh);
    assert(cf * us <= kl && kh <= df * us) by (nonlinear_arith)
        requires
            cf == c * fl,
            df == d * fh,
            kl == k * ls,
            kh == k * hs,
            ls == fl * step,
            hs == fh * step,
            us == u * step,
            c * u <= k <= d * u,
            ls >= 0,
            hs >= 0,
    {
        assert((c * u) * ls <= k * ls);
        assert((c * u) * (fl * step) == (c * fl) * (u * step));
        assert(k * hs <= (d * u) * hs);
        assert((d * u) * (fh * step) == (d * fh) * (u * step));
    }
    assert(ke <= 16 * (one * eu)) by (nonlinear_arith)
        requires
            ke == k * eu,
            k <= d * u,
            d <= 0x1000_0000_0000,
            one == 0x100_0000_0000 * u,
            eu >= 0,
            u > 0,
    {
        assert(k <= 16 * one);
        assert(k * eu <= (16 * one) * eu);
    }
    let (lo, ho) = (low * step, high * step);
    assert(one * lo <= cf * us && df * us <= one * ho) by (nonlinear_arith)
        requires
            low * 0x100_0000_0000 <= cf,
            df <= high * 0x100_0000_0000,
            lo == low * step,
            ho == high * step,
            one == 0x100_0000_0000 * u,
            us == u * step,
            us >= 0,
    {
        assert((low * 0x100_0000_0000) * us <= cf * us);
        assert(df * us <= (high * 0x100_0000_0000) * us);
        assert((0x100_0000_0000 * u) * (low * step) == (low * 0x100_0000_0000) * (u * step));
        assert((0x100_0000_0000 * u) * (high * step) == (high * 0x100_0000_0000) * (u * step));
    }
    let gap = p - q;
    let (og, oe, ou) = (one * gap, one * eu, one * u);
    assert(og == p * one - q * one) by (nonlinear_arith)
        requires
            og == one * gap,
            gap == p - q,
    ;
    assert(one * lo - 16 * oe - 2_000_000 * ou <= 1_000_000 * og <= one * ho + 16 * oe + 2_000_000
        * ou);
    let more = (16 * e + 2) * (1_000_000 * u);
    assert(more == 16 * eu + 2_000_000 * u) by (nonlinear_arith)
        requires
            more == (16 * e + 2) * (1_000_000 * u),
            eu == e * (1_000_000 * u),
    ;
    assert(lo - more <= 1_000_000 * gap <= ho + more) by (nonlinear_arith)
        requires
            one * lo - 16 * oe - 2_000_000 * ou <= 1_000_000 * og <= one * ho + 16 * oe + 2_000_000
                * ou,
            og == one * gap,
            oe == one * eu,
            ou == one * u,
            more == 16 * eu + 2_000_000 * u,
            one > 0,
    {
        assert(one * (lo - more) <= one * (1_000_000 * gap));
        assert(one * (1_000_000 * gap) <= one * (ho + more));
    }
}

/// The rise of a positive multiple.
proof fn lemma_multiple_rise(
    k: Wide,
    f: Wide,
    g: Wide,
    step: int,
    c: int,
    d: int,
    fl: int,
    fh: int,
    low: int,
    high: int,
    e: int,
)
    requires
        interval_arithmetic::lies(k, c, d),
        interval_arithmetic::lies(f, 0, 0x100_0000_0000),
        interval_arithmetic::lies(g, 0, 0x100_0000_0000),
        step >= 0,
        0 <= c,
        d <= 0x1000_0000_0000,
        0 <= e,
        0 <= fl <= fh,
        rises(wide_bounds::exact(f) - wide_bounds::exact(g), step, fl, fh, e),
        low * 0x100_0000_0000 <= c * fl,
        d * fh <= high * 0x100_0000_0000,
    ensures
        k.product(f).finite(),
        k.product(g).finite(),
        rises(
            wide_bounds::exact(k.product(f)) - wide_bounds::exact(k.product(g)),
            step,
            low,
            high,
            16 * e + 2,
        ),
{
    form_arithmetic::lemma_parts();
    interval_arithmetic::lemma_wider(k, c, d, -0x1000_0000_0000, 0x1000_0000_0000);
    interval_arithmetic::lemma_wider(f, 0, 0x100_0000_0000, -0x200_0000_0000, 0x200_0000_0000);
    interval_arithmetic::lemma_wider(g, 0, 0x100_0000_0000, -0x200_0000_0000, 0x200_0000_0000);
    lemma_product_agrees(k, f);
    lemma_product_agrees(k, g);
    lemma_multiple_values(
        wide_bounds::exact(k),
        wide_bounds::exact(f),
        wide_bounds::exact(g),
        wide_bounds::exact(k.product(f)),
        wide_bounds::exact(k.product(g)),
        step,
        c,
        d,
        fl,
        fh,
        low,
        high,
        e,
        form_arithmetic::part(),
    );
}

/// The rise of a negative multiple.
proof fn lemma_negative_multiple_rise(
    k: Wide,
    f: Wide,
    g: Wide,
    step: int,
    c: int,
    d: int,
    fl: int,
    fh: int,
    low: int,
    high: int,
    e: int,
)
    requires
        interval_arithmetic::lies(k, -d, -c),
        interval_arithmetic::lies(f, 0, 0x100_0000_0000),
        interval_arithmetic::lies(g, 0, 0x100_0000_0000),
        step >= 0,
        0 <= c,
        d <= 0x1000_0000_0000,
        0 <= e,
        0 <= fl <= fh,
        rises(wide_bounds::exact(f) - wide_bounds::exact(g), step, fl, fh, e),
        low * 0x100_0000_0000 <= c * fl,
        d * fh <= high * 0x100_0000_0000,
    ensures
        k.product(f).finite(),
        k.product(g).finite(),
        rises(
            wide_bounds::exact(k.product(f)) - wide_bounds::exact(k.product(g)),
            step,
            -high,
            -low,
            16 * e + 2,
        ),
{
    let (u, one) = (form_arithmetic::part(), wide_bounds::one());
    form_arithmetic::lemma_parts();
    interval_arithmetic::lemma_wider(k, -d, -c, -0x1000_0000_0000, 0x1000_0000_0000);
    interval_arithmetic::lemma_wider(f, 0, 0x100_0000_0000, -0x200_0000_0000, 0x200_0000_0000);
    interval_arithmetic::lemma_wider(g, 0, 0x100_0000_0000, -0x200_0000_0000, 0x200_0000_0000);
    lemma_product_agrees(k, f);
    lemma_product_agrees(k, g);
    let (l, y, w) = (-wide_bounds::exact(k), wide_bounds::exact(f), wide_bounds::exact(g));
    let (p, q) = (
        -wide_bounds::exact(k.product(f)),
        -wide_bounds::exact(k.product(g)),
    );
    assert((-l) * y == -(l * y) && (-l) * w == -(l * w)) by (nonlinear_arith);
    assert((-p) * one == -(p * one) && (-q) * one == -(q * one)) by (nonlinear_arith);
    assert((-d) * u == -(d * u) && (-c) * u == -(c * u)) by (nonlinear_arith);
    lemma_multiple_values(l, y, w, p, q, step, c, d, fl, fh, low, high, e, u);
    assert((-high) * step == -(high * step) && (-low) * step == -(low * step))
        by (nonlinear_arith);
}

/// The rise of the sum of three terms of a cubic and a constant.
proof fn lemma_sum_rise(
    y: int,
    z: int,
    third: int,
    second: int,
    first: int,
    step: int,
    tl: int,
    th: int,
    sl: int,
    sh: int,
    fl: int,
    fh: int,
)
    requires
        rises(third, step, tl, th, 66),
        rises(second, step, sl, sh, 34),
        rises(first, step, fl, fh, 2),
        ({
            let u = form_arithmetic::part();
            -6 * u <= y - z - (third - second + first) <= 6 * u
        }),
    ensures
        rises(y - z, step, tl - sh + fl, th - sl + fh, 108),
{
    let u = form_arithmetic::part();
    assert((tl - sh + fl) * step == tl * step - sh * step + fl * step) by (nonlinear_arith);
    assert((th - sl + fh) * step == th * step - sl * step + fh * step) by (nonlinear_arith);
}

/// The square of a number between bounds.
proof fn lemma_square(x: Wide, c: int, d: int, v: int, w: int)
    requires
        interval_arithmetic::lies(x, c, d),
        0 <= c,
        d <= 0x80_0000_0000,
        0 <= v,
        (v + 3) * 0x100_0000_0000 <= c * c,
        d * d <= (w - 3) * 0x100_0000_0000,
    ensures
        interval_arithmetic::lies(white_balance::squared(x), v, w),
{
    let u = form_arithmetic::part();
    form_arithmetic::lemma_parts();
    let (cc, dd) = (c * c, d * d);
    assert(c <= d) by (nonlinear_arith)
        requires
            c * u <= d * u,
            u > 0,
    ;
    assert(0 <= cc <= dd && dd <= 0x80_0000_0000 * 0x80_0000_0000) by (nonlinear_arith)
        requires
            cc == c * c,
            dd == d * d,
            0 <= c <= d,
            d <= 0x80_0000_0000,
    ;
    interval_arithmetic::lemma_product(x, x, c, d, c, d, v, w);
}

proof fn lemma_square_in_range(x: Wide, a: int, b: int)
    requires
        interval_arithmetic::lies(x, a, b),
        0 <= a,
        b <= 0x80_0000_0000,
    ensures
        interval_arithmetic::lies(white_balance::squared(x), 0, 0x100_0000_0000),
{
    interval_arithmetic::lemma_wider(x, a, b, 0, 0x80_0000_0000);
    interval_arithmetic::lemma_wider(x, a, b, 0, 0x100_0000_0000);
    lemma_cube_in_range(x, x);
}

/// A product of a number up to a half with another up to one is from zero to
/// one.
proof fn lemma_cube_in_range(x: Wide, y: Wide)
    requires
        interval_arithmetic::lies(x, 0, 0x80_0000_0000),
        interval_arithmetic::lies(y, 0, 0x100_0000_0000),
    ensures
        interval_arithmetic::lies(x.product(y), 0, 0x100_0000_0000),
{
    let u = form_arithmetic::part();
    form_arithmetic::lemma_parts();
    interval_arithmetic::lemma_product_size(
        x,
        y,
        0x80_0000_0000,
        0x100_0000_0000,
        0x100_0000_0000,
    );
    wide_bounds::a_product_keeps_its_sign(x, y);
}

/// A term of a cubic is of limited size.
proof fn lemma_terms(k: Wide, x: Wide)
    requires
        interval_arithmetic::lies(k, -0x1000_0000_0000, 0x1000_0000_0000),
        interval_arithmetic::lies(x, -0x100_0000_0000, 0x100_0000_0000),
    ensures
        interval_arithmetic::lies(k.product(x), -0x2000_0000_0000, 0x2000_0000_0000),
{
    interval_arithmetic::lemma_product_size(
        k,
        x,
        0x1000_0000_0000,
        0x100_0000_0000,
        0x2000_0000_0000,
    );
}

/// Four terms, added up in turn, against the exact sum.
proof fn lemma_sum_agrees(third: Wide, second: Wide, first: Wide, last: Wide)
    requires
        interval_arithmetic::lies(third, -0x2000_0000_0000, 0x2000_0000_0000),
        interval_arithmetic::lies(second, -0x2000_0000_0000, 0x2000_0000_0000),
        interval_arithmetic::lies(first, -0x2000_0000_0000, 0x2000_0000_0000),
        interval_arithmetic::lies(last, -0x2000_0000_0000, 0x2000_0000_0000),
    ensures
        third.difference(second).sum(first).difference(last).finite(),
        ({
            let u = form_arithmetic::part();
            let found = wide_bounds::exact(third.difference(second).sum(first).difference(last));
            -3 * u <= found - (wide_bounds::exact(third) - wide_bounds::exact(second)
                + wide_bounds::exact(first) - wide_bounds::exact(last)) <= 3 * u
        }),
{
    form_arithmetic::lemma_parts();
    interval_arithmetic::lemma_sum_agrees(third, second);
    interval_arithmetic::lemma_sum_agrees(third.difference(second), first);
    interval_arithmetic::lemma_sum_agrees(third.difference(second).sum(first), last);
}

/// The rise of the second coordinate of the locus above 4000 kelvin with the
/// first: `a` and `b` bound the greater one, `c` and `d` the lesser, and `v`
/// and `w` its square. Slopes are bounded by `sl` and `sh` for the square, by
/// `tl` and `th` for the cube, and by the others for the three terms.
pub proof fn lemma_cold_rise(
    big: Wide,
    small: Wide,
    a: int,
    b: int,
    c: int,
    d: int,
    v: int,
    w: int,
    sl: int,
    sh: int,
    tl: int,
    th: int,
    dl: int,
    dh: int,
    el: int,
    eh: int,
    gl: int,
    gh: int,
    low: int,
    high: int,
)
    requires
        interval_arithmetic::lies(big, a, b),
        interval_arithmetic::lies(small, c, d),
        0 <= a,
        b <= 0x80_0000_0000,
        0 <= c,
        d <= 0x80_0000_0000,
        wide_bounds::exact(small) <= wide_bounds::exact(big),
        0 <= v <= w <= 0x100_0000_0000,
        (v + 3) * 0x100_0000_0000 <= c * c,
        d * d <= (w - 3) * 0x100_0000_0000,
        0 <= sl <= sh,
        sl * 0x100_0000_0000 <= a * 1_000_000 + c * 1_000_000,
        b * 1_000_000 + d * 1_000_000 <= sh * 0x100_0000_0000,
        0 <= tl <= th,
        tl * 0x100_0000_0000 <= a * sl + v * 1_000_000,
        b * sh + w * 1_000_000 <= th * 0x100_0000_0000,
        dl * 0x100_0000_0000 <= 3388428754991 * tl,
        3388428754993 * th <= dh * 0x100_0000_0000,
        el * 0x100_0000_0000 <= 6457856971074 * sl,
        6457856971076 * sh <= eh * 0x100_0000_0000,
        gl * 0x100_0000_0000 <= 4124411019313 * 1_000_000,
        4124411019315 * 1_000_000 <= gh * 0x100_0000_0000,
        low == dl - eh + gl,
        high == dh - el + gh,
    ensures
        locus_laws::cold_y(big).finite(),
        locus_laws::cold_y(small).finite(),
        rises(
            wide_bounds::exact(locus_laws::cold_y(big)) - wide_bounds::exact(
                locus_laws::cold_y(small),
            ),
            wide_bounds::exact(big) - wide_bounds::exact(small),
            low,
            high,
            108,
        ),
{
    let u = form_arithmetic::part();
    let step = wide_bounds::exact(big) - wide_bounds::exact(small);
    form_arithmetic::lemma_parts();
    locus_laws::lemma_cold_constants();
    let (y3, y2, y1, y0) = (
        white_balance::number(white_balance::CY3),
        white_balance::number(white_balance::CY2),
        white_balance::number(white_balance::CY1),
        white_balance::number(white_balance::CY0),
    );
    interval_arithmetic::lemma_wider(big, a, b, 0, 0x100_0000_0000);
    interval_arithmetic::lemma_wider(small, c, d, 0, 0x100_0000_0000);
    assert(rises(step, step, 1_000_000, 1_000_000, 0));
    lemma_product_rise(
        big,
        big,
        small,
        small,
        a,
        b,
        c,
        d,
        1_000_000,
        1_000_000,
        sl,
        sh,
        0,
    );
    let (bs, ss) = (white_balance::squared(big), white_balance::squared(small));
    lemma_square(small, c, d, v, w);
    lemma_square_in_range(big, a, b);
    interval_arithmetic::lemma_wider(ss, v, w, 0, 0x100_0000_0000);
    lemma_product_rise(big, bs, small, ss, a, b, v, w, sl, sh, tl, th, 2);
    let (bc, sc) = (white_balance::cubed(big), white_balance::cubed(small));
    interval_arithmetic::lemma_wider(big, a, b, 0, 0x80_0000_0000);
    interval_arithmetic::lemma_wider(small, c, d, 0, 0x80_0000_0000);
    lemma_cube_in_range(big, bs);
    lemma_cube_in_range(small, ss);
    lemma_multiple_rise(y3, bc, sc, step, 3388428754991, 3388428754993, tl, th, dl, dh, 4);
    lemma_multiple_rise(y2, bs, ss, step, 6457856971074, 6457856971076, sl, sh, el, eh, 2);
    lemma_multiple_rise(
        y1,
        big,
        small,
        step,
        4124411019313,
        4124411019315,
        1_000_000,
        1_000_000,
        gl,
        gh,
        0,
    );
    lemma_terms(y3, bc);
    lemma_terms(y3, sc);
    lemma_terms(y2, bs);
    lemma_terms(y2, ss);
    lemma_terms(y1, big);
    lemma_terms(y1, small);
    lemma_sum_agrees(y3.product(bc), y2.product(bs), y1.product(big), y0);
    lemma_sum_agrees(y3.product(sc), y2.product(ss), y1.product(small), y0);
    lemma_sum_rise(
        wide_bounds::exact(locus_laws::cold_y(big)),
        wide_bounds::exact(locus_laws::cold_y(small)),
        wide_bounds::exact(y3.product(bc)) - wide_bounds::exact(y3.product(sc)),
        wide_bounds::exact(y2.product(bs)) - wide_bounds::exact(y2.product(ss)),
        wide_bounds::exact(y1.product(big)) - wide_bounds::exact(y1.product(small)),
        step,
        dl, dh,
        el,
        eh,
        gl,
        gh,
    );
}

/// The rise of the second coordinate of the locus below 4000 kelvin with the
/// first: `a` and `b` bound the greater one, `c` and `d` the lesser, and `v`
/// and `w` its square. Slopes are bounded by `sl` and `sh` for the square, by
/// `tl` and `th` for the cube, and by the others for the three terms.
pub proof fn lemma_warm_rise(
    big: Wide,
    small: Wide,
    a: int,
    b: int,
    c: int,
    d: int,
    v: int,
    w: int,
    sl: int,
    sh: int,
    tl: int,
    th: int,
    dl: int,
    dh: int,
    el: int,
    eh: int,
    gl: int,
    gh: int,
    low: int,
    high: int,
)
    requires
        interval_arithmetic::lies(big, a, b),
        interval_arithmetic::lies(small, c, d),
        0 <= a,
        b <= 0x80_0000_0000,
        0 <= c,
        d <= 0x80_0000_0000,
        wide_bounds::exact(small) <= wide_bounds::exact(big),
        0 <= v <= w <= 0x100_0000_0000,
        (v + 3) * 0x100_0000_0000 <= c * c,
        d * d <= (w - 3) * 0x100_0000_0000,
        0 <= sl <= sh,
        sl * 0x100_0000_0000 <= a * 1_000_000 + c * 1_000_000,
        b * 1_000_000 + d * 1_000_000 <= sh * 0x100_0000_0000,
        0 <= tl <= th,
        tl * 0x100_0000_0000 <= a * sl + v * 1_000_000,
        b * sh + w * 1_000_000 <= th * 0x100_0000_0000,
        dl * 0x100_0000_0000 <= 1049975990116 * tl,
        1049975990118 * th <= dh * 0x100_0000_0000,
        el * 0x100_0000_0000 <= 1510933408760 * sl,
        1510933408762 * sh <= eh * 0x100_0000_0000,
        gl * 0x100_0000_0000 <= 2299485797908 * 1_000_000,
        2299485797910 * 1_000_000 <= gh * 0x100_0000_0000,
        low == -dh - eh + gl,
        high == -dl - el + gh,
    ensures
        locus_laws::warm_y(big).finite(),
        locus_laws::warm_y(small).finite(),
        rises(
            wide_bounds::exact(locus_laws::warm_y(big)) - wide_bounds::exact(
                locus_laws::warm_y(small),
            ),
            wide_bounds::exact(big) - wide_bounds::exact(small),
            low,
            high,
            108,
        ),
{
    let u = form_arithmetic::part();
    let step = wide_bounds::exact(big) - wide_bounds::exact(small);
    form_arithmetic::lemma_parts();
    locus_laws::lemma_warm_constants();
    let (y3, y2, y1, y0) = (
        white_balance::number(white_balance::WY3),
        white_balance::number(white_balance::WY2),
        white_balance::number(white_balance::WY1),
        white_balance::number(white_balance::WY0),
    );
    interval_arithmetic::lemma_wider(big, a, b, 0, 0x100_0000_0000);
    interval_arithmetic::lemma_wider(small, c, d, 0, 0x100_0000_0000);
    assert(rises(step, step, 1_000_000, 1_000_000, 0));
    lemma_product_rise(
        big,
        big,
        small,
        small,
        a,
        b,
        c,
        d,
        1_000_000,
        1_000_000,
        sl,
        sh,
        0,
    );
    let (bs, ss) = (white_balance::squared(big), white_balance::squared(small));
    lemma_square(small, c, d, v, w);
    lemma_square_in_range(big, a, b);
    interval_arithmetic::lemma_wider(ss, v, w, 0, 0x100_0000_0000);
    lemma_product_rise(big, bs, small, ss, a, b, v, w, sl, sh, tl, th, 2);
    let (bc, sc) = (white_balance::cubed(big), white_balance::cubed(small));
    interval_arithmetic::lemma_wider(big, a, b, 0, 0x80_0000_0000);
    interval_arithmetic::lemma_wider(small, c, d, 0, 0x80_0000_0000);
    lemma_cube_in_range(big, bs);
    lemma_cube_in_range(small, ss);
    lemma_negative_multiple_rise(y3, bc, sc, step, 1049975990116, 1049975990118, tl, th, dl, dh, 4);
    lemma_multiple_rise(y2, bs, ss, step, 1510933408760, 1510933408762, sl, sh, el, eh, 2);
    lemma_multiple_rise(
        y1,
        big,
        small,
        step,
        2299485797908,
        2299485797910,
        1_000_000,
        1_000_000,
        gl,
        gh,
        0,
    );
    lemma_terms(y3, bc);
    lemma_terms(y3, sc);
    lemma_terms(y2, bs);
    lemma_terms(y2, ss);
    lemma_terms(y1, big);
    lemma_terms(y1, small);
    lemma_sum_agrees(y3.product(bc), y2.product(bs), y1.product(big), y0);
    lemma_sum_agrees(y3.product(sc), y2.product(ss), y1.product(small), y0);
    lemma_sum_rise(
        wide_bounds::exact(locus_laws::warm_y(big)),
        wide_bounds::exact(locus_laws::warm_y(small)),
        wide_bounds::exact(y3.product(bc)) - wide_bounds::exact(y3.product(sc)),
        wide_bounds::exact(y2.product(bs)) - wide_bounds::exact(y2.product(ss)),
        wide_bounds::exact(y1.product(big)) - wide_bounds::exact(y1.product(small)),
        step,
        -dh, -dl,
        el,
        eh,
        gl,
        gh,
    );
}

} // verus!
