//! Wide numbers between bounds, counted in parts of one.

use vstd::arithmetic::power2::*;
use vstd::prelude::*;

use crate::number::wide::Wide;
use crate::number::wide_bounds;
use crate::render::form_arithmetic;

verus! {

/// Whether a number lies between two counts of parts.
pub open spec fn lies(v: Wide, low: int, high: int) -> bool {
    &&& v.finite()
    &&& low * form_arithmetic::part() <= wide_bounds::exact(v) <= high * form_arithmetic::part()
}

/// Whether every product of a number between `a` and `b` with one between `c`
/// and `d` lies between `low` and `high`, rounded too.
pub open spec fn holds_products(a: int, b: int, c: int, d: int, low: int, high: int) -> bool {
    &&& 0 <= a && 0 <= c && 0 <= low
    &&& b <= 0x1_0000_0000_0000_0000_0000_0000
    &&& d <= 0x1_0000_0000_0000_0000_0000_0000
    &&& (low + 1) * 0x400_0000_0000_0000_0000_0000 <= a * c * 0x3_ffff_ffff_ffff
    &&& b * d * 0x4_0000_0000_0001 <= (high - 1) * 0x400_0000_0000_0000_0000_0000
}

/// Whether every quotient of a number between `a` and `b` by one between `c`
/// and `d` lies between `low` and `high`, rounded too.
pub open spec fn holds_quotients(a: int, b: int, c: int, d: int, low: int, high: int) -> bool {
    &&& 0 <= a && 1 <= c && 0 <= low && 1 <= high
    &&& b <= 0x1_0000_0000_0000_0000_0000_0000
    &&& d <= 0x1_0000_0000_0000_0000_0000_0000
    &&& (low + 1) * d * 0x4_0000_0000_0000 <= a * 0x3ff_ffff_ffff_ff00_0000_0000
    &&& b * 0x400_0000_0000_0100_0000_0000 <= (high - 1) * c * 0x4_0000_0000_0000
}

pub proof fn lemma_near(v: Wide, r: int, e: int)
    requires
        form_arithmetic::is_near(v, r, e),
    ensures
        lies(v, r - e, r + e),
{
    let u = form_arithmetic::part();
    assert((r - e) * u == r * u - e * u && (r + e) * u == r * u + e * u) by (nonlinear_arith);
}

/// Wider bounds.
pub proof fn lemma_wider(v: Wide, a: int, b: int, low: int, high: int)
    requires
        lies(v, a, b),
        low <= a,
        b <= high,
    ensures
        lies(v, low, high),
{
    let u = form_arithmetic::part();
    form_arithmetic::lemma_parts();
    assert(low * u <= a * u && b * u <= high * u) by (nonlinear_arith)
        requires
            low <= a,
            b <= high,
            u > 0,
    ;
}

/// A number between bounds is of moderate size.
pub proof fn lemma_moderate(v: Wide, a: int, b: int)
    requires
        lies(v, a, b),
        -0x10_0000_0000_0000_0000_0000_0000 <= a,
        b <= 0x10_0000_0000_0000_0000_0000_0000,
    ensures
        wide_bounds::moderate(v),
{
    let u = form_arithmetic::part();
    form_arithmetic::lemma_parts();
    lemma_wider(
        v,
        a,
        b,
        -0x10_0000_0000_0000_0000_0000_0000,
        0x10_0000_0000_0000_0000_0000_0000,
    );
}

/// Negation turns the bounds round.
pub proof fn lemma_negated(v: Wide, a: int, b: int)
    requires
        lies(v, a, b),
    ensures
        lies(v.negated(), -b, -a),
{
    let u = form_arithmetic::part();
    wide_bounds::negation_is_exact(v);
    assert((-b) * u == -(b * u) && (-a) * u == -(a * u)) by (nonlinear_arith);
}

/// Sums and differences.
pub proof fn lemma_sum(v: Wide, w: Wide, a: int, b: int, c: int, d: int)
    requires
        lies(v, a, b),
        lies(w, c, d),
        -0x4_0000_0000_0000 <= a,
        b <= 0x4_0000_0000_0000,
        -0x4_0000_0000_0000 <= c,
        d <= 0x4_0000_0000_0000,
    ensures
        lies(v.sum(w), a + c - 1, b + d + 1),
        lies(v.difference(w), a - d - 1, b - c + 1),
{
    let u = form_arithmetic::part();
    form_arithmetic::lemma_parts();
    lemma_moderate(v, a, b);
    lemma_moderate(w, c, d);
    lemma_wider(v, a, b, -0x4_0000_0000_0000, 0x4_0000_0000_0000);
    lemma_wider(w, c, d, -0x4_0000_0000_0000, 0x4_0000_0000_0000);
    wide_bounds::a_sum_is_close(v, w);
    wide_bounds::a_difference_is_close(v, w);
    assert((a + c - 1) * u == a * u + c * u - u && (b + d + 1) * u == b * u + d * u + u)
        by (nonlinear_arith);
    assert((a - d - 1) * u == a * u - d * u - u && (b - c + 1) * u == b * u - c * u + u)
        by (nonlinear_arith);
}

/// A product of numbers that are not negative.
proof fn lemma_product_values(
    x: int,
    y: int,
    found: int,
    a: int,
    b: int,
    c: int,
    d: int,
    low: int,
    high: int,
    u: int,
)
    requires
        u >= 0x10_0000_0000_0000,
        holds_products(a, b, c, d, low, high),
        a * u <= x <= b * u,
        c * u <= y <= d * u,
        ({
            let one = 0x100_0000_0000 * u;
            &&& (found * one - x * y) * 0x10_0000_0000_0000 <= x * y + one * 0x10_0000_0000_0000
            &&& (x * y - found * one) * 0x10_0000_0000_0000 <= x * y + one * 0x10_0000_0000_0000
        }),
    ensures
        low * u <= found <= high * u,
{
    let xy = x * y;
    let (ac, bd, uu) = (a * c, b * d, u * u);
    let (acu, bdu) = (ac * uu, bd * uu);
    assert(0 <= a * u && 0 <= c * u) by (nonlinear_arith)
        requires
            a >= 0,
            c >= 0,
            u > 0,
    ;
    assert(xy >= (a * u) * (c * u) && xy <= (b * u) * (d * u)) by (nonlinear_arith)
        requires
            xy == x * y,
            0 <= a * u <= x <= b * u,
            0 <= c * u <= y <= d * u,
    ;
    form_arithmetic::lemma_both_times(a, c, u);
    form_arithmetic::lemma_both_times(b, d, u);
    let fu = found * u;
    assert(found * (0x100_0000_0000 * u) == 0x100_0000_0000 * fu) by (nonlinear_arith)
        requires
            fu == found * u,
    ;
    let (lu, hu) = ((low + 1) * uu, (high - 1) * uu);
    assert(lu * 0x400_0000_0000_0000_0000_0000 <= acu * 0x3_ffff_ffff_ffff) by (nonlinear_arith)
        requires
            (low + 1) * 0x400_0000_0000_0000_0000_0000 <= ac * 0x3_ffff_ffff_ffff,
            lu == (low + 1) * uu,
            acu == ac * uu,
            uu >= 0,
    {
        assert(((low + 1) * 0x400_0000_0000_0000_0000_0000) * uu <= (ac * 0x3_ffff_ffff_ffff)
            * uu);
    }
    assert(bdu * 0x4_0000_0000_0001 <= hu * 0x400_0000_0000_0000_0000_0000) by (nonlinear_arith)
        requires
            bd * 0x4_0000_0000_0001 <= (high - 1) * 0x400_0000_0000_0000_0000_0000,
            hu == (high - 1) * uu,
            bdu == bd * uu,
            uu >= 0,
    {
        assert((bd * 0x4_0000_0000_0001) * uu <= ((high - 1) * 0x400_0000_0000_0000_0000_0000)
            * uu);
    }
    assert(uu >= 0) by (nonlinear_arith)
        requires
            uu == u * u,
            u > 0,
    ;
    assert(acu >= 0) by (nonlinear_arith)
        requires
            acu == (a * u) * (c * u),
            a * u >= 0,
            c * u >= 0,
    ;
    assert(lu - u <= fu <= hu + u);
    assert(low * u <= found) by (nonlinear_arith)
        requires
            (low + 1) * uu - u <= found * u,
            uu == u * u,
            u > 1,
    {
        assert(((low + 1) * u - 1) * u <= found * u);
        assert((low + 1) * u - 1 <= found);
    }
    assert(found <= high * u) by (nonlinear_arith)
        requires
            found * u <= (high - 1) * uu + u,
            uu == u * u,
            u > 1,
    {
        assert(found * u <= ((high - 1) * u + 1) * u);
        assert(found <= (high - 1) * u + 1);
    }
}

/// Products of numbers that are not negative.
pub proof fn lemma_product(
    v: Wide,
    w: Wide,
    a: int,
    b: int,
    c: int,
    d: int,
    low: int,
    high: int,
)
    requires
        lies(v, a, b),
        lies(w, c, d),
        holds_products(a, b, c, d, low, high),
    ensures
        lies(v.product(w), low, high),
{
    let u = form_arithmetic::part();
    let (x, y) = (wide_bounds::exact(v), wide_bounds::exact(w));
    form_arithmetic::lemma_parts();
    lemma_moderate(v, a, b);
    lemma_moderate(w, c, d);
    wide_bounds::a_product_is_close(v, w);
    lemma_sign(x, y, a, c, u);
    lemma_product_values(x, y, wide_bounds::exact(v.product(w)), a, b, c, d, low, high, u);
}

proof fn lemma_sign(x: int, y: int, a: int, c: int, u: int)
    requires
        a * u <= x,
        c * u <= y,
        a >= 0,
        c >= 0,
        u > 0,
    ensures
        x >= 0,
        y >= 0,
        x * y >= 0,
{
    assert(a * u >= 0 && c * u >= 0) by (nonlinear_arith)
        requires
            a >= 0,
            c >= 0,
            u > 0,
    ;
    assert(x * y >= 0) by (nonlinear_arith)
        requires
            x >= 0,
            y >= 0,
    ;
}

/// Products of a number that is not positive with one that is not negative.
pub proof fn lemma_negative_product(
    v: Wide,
    w: Wide,
    a: int,
    b: int,
    c: int,
    d: int,
    low: int,
    high: int,
)
    requires
        lies(v, -b, -a),
        lies(w, c, d),
        holds_products(a, b, c, d, low, high),
    ensures
        lies(v.product(w), -high, -low),
{
    let u = form_arithmetic::part();
    let (x, y) = (-wide_bounds::exact(v), wide_bounds::exact(w));
    let found = -wide_bounds::exact(v.product(w));
    let one = wide_bounds::one();
    form_arithmetic::lemma_parts();
    lemma_turned(-b, -a, u);
    lemma_turned(-high, -low, u);
    lemma_moderate(v, -b, -a);
    lemma_moderate(w, c, d);
    wide_bounds::a_product_is_close(v, w);
    assert((-x) * y == -(x * y) && (-found) * one == -(found * one)) by (nonlinear_arith);
    lemma_sign(x, y, a, c, u);
    lemma_product_values(x, y, found, a, b, c, d, low, high, u);
}

proof fn lemma_turned(a: int, b: int, u: int)
    ensures
        (-a) * u == -(a * u),
        (-b) * u == -(b * u),
{
    assert((-a) * u == -(a * u) && (-b) * u == -(b * u)) by (nonlinear_arith);
}

/// A quotient of numbers that are not negative.
proof fn lemma_quotient_values(
    x: int,
    y: int,
    found: int,
    a: int,
    b: int,
    c: int,
    d: int,
    low: int,
    high: int,
    u: int,
)
    requires
        u >= 0x10_0000_0000_0000,
        holds_quotients(a, b, c, d, low, high),
        a * u <= x <= b * u,
        c * u <= y <= d * u,
        ({
            let xb = x * (0x100_0000_0000 * u);
            &&& (found * y - xb) * 0x10_0000_0000_0000 <= xb + y * 0x10_0000_0000_0000
            &&& (xb - found * y) * 0x10_0000_0000_0000 <= xb + y * 0x10_0000_0000_0000
        }),
    ensures
        low * u <= found <= high * u,
{
    let uu = u * u;
    let fy = found * y;
    let xu = x * u;
    let (au, bu) = (a * uu, b * uu);
    assert(x * (0x100_0000_0000 * u) == 0x100_0000_0000 * xu) by (nonlinear_arith)
        requires
            xu == x * u,
    ;
    assert(au <= xu <= bu && uu >= 0 && y > 0 && au >= 0) by (nonlinear_arith)
        requires
            a * u <= x <= b * u,
            c * u <= y,
            au == a * uu,
            bu == b * uu,
            uu == u * u,
            xu == x * u,
            u > 0,
            c >= 1,
            a >= 0,
    ;
    let (ld, hc) = ((low + 1) * d, (high - 1) * c);
    let (ldu, hcu) = (ld * uu, hc * uu);
    assert(ldu * 0x4_0000_0000_0000 <= au * 0x3ff_ffff_ffff_ff00_0000_0000) by (nonlinear_arith)
        requires
            ld * 0x4_0000_0000_0000 <= a * 0x3ff_ffff_ffff_ff00_0000_0000,
            ldu == ld * uu,
            au == a * uu,
            uu >= 0,
    {
        assert((ld * 0x4_0000_0000_0000) * uu <= (a * 0x3ff_ffff_ffff_ff00_0000_0000) * uu);
    }
    assert(bu * 0x400_0000_0000_0100_0000_0000 <= hcu * 0x4_0000_0000_0000) by (nonlinear_arith)
        requires
            b * 0x400_0000_0000_0100_0000_0000 <= hc * 0x4_0000_0000_0000,
            hcu == hc * uu,
            bu == b * uu,
            uu >= 0,
    {
        assert((b * 0x400_0000_0000_0100_0000_0000) * uu <= (hc * 0x4_0000_0000_0000) * uu);
    }
    let (lu, hu) = ((low + 1) * u, (high - 1) * u);
    let (luy, huy) = (lu * y, hu * y);
    assert(luy <= ldu) by (nonlinear_arith)
        requires
            luy == lu * y,
            lu == (low + 1) * u,
            ldu == ld * uu,
            ld == (low + 1) * d,
            uu == u * u,
            y <= d * u,
            low >= 0,
            u > 0,
    {
        assert(lu >= 0);
        assert(lu * y <= lu * (d * u));
        assert(lu * (d * u) == ((low + 1) * d) * (u * u));
    }
    assert(huy >= hcu) by (nonlinear_arith)
        requires
            huy == hu * y,
            hu == (high - 1) * u,
            hcu == hc * uu,
            hc == (high - 1) * c,
            uu == u * u,
            y >= c * u,
            high >= 1,
            u > 0,
    {
        assert(hu >= 0);
        assert(hu * y >= hu * (c * u));
        assert(hu * (c * u) == ((high - 1) * c) * (u * u));
    }
    assert(luy - y <= fy <= huy + y);
    assert(lu - 1 <= found <= hu + 1) by (nonlinear_arith)
        requires
            lu * y - y <= found * y <= hu * y + y,
            y > 0,
    {
        assert((lu - 1) * y <= found * y);
        assert(found * y <= (hu + 1) * y);
    }
    assert(lu == low * u + u && hu == high * u - u) by (nonlinear_arith)
        requires
            lu == (low + 1) * u,
            hu == (high - 1) * u,
    ;
}

pub proof fn lemma_divisor(y: int, c: int, u: int)
    requires
        c * u <= y,
        c >= 1,
        u > 0,
    ensures
        y >= u,
        y * pow2(200) >= 0x100_0000_0000 * u,
{
    lemma2_to64();
    lemma_pow2_adds(64, 136);
    lemma_pow2_pos(136);
    assert(y >= u) by (nonlinear_arith)
        requires
            c * u <= y,
            c >= 1,
            u > 0,
    ;
    assert(y * pow2(200) >= 0x100_0000_0000 * u) by (nonlinear_arith)
        requires
            y >= u,
            u > 0,
            pow2(200) == 0x1_0000_0000_0000_0000 * pow2(136),
            pow2(136) >= 1,
    {
        assert(pow2(200) >= 0x100_0000_0000);
        assert(y * pow2(200) >= u * pow2(200));
        assert(u * pow2(200) >= u * 0x100_0000_0000);
    }
}

/// Quotients of a number that is not negative by a positive one.
pub proof fn lemma_quotient(
    v: Wide,
    w: Wide,
    a: int,
    b: int,
    c: int,
    d: int,
    low: int,
    high: int,
)
    requires
        lies(v, a, b),
        lies(w, c, d),
        holds_quotients(a, b, c, d, low, high),
    ensures
        lies(v.quotient(w), low, high),
{
    let u = form_arithmetic::part();
    let (x, y) = (wide_bounds::exact(v), wide_bounds::exact(w));
    form_arithmetic::lemma_parts();
    lemma_moderate(v, a, b);
    lemma_moderate(w, c, d);
    lemma_divisor(y, c, u);
    wide_bounds::a_quotient_is_close(v, w);
    lemma_sign(x, y, a, c, u);
    lemma_sign(x, wide_bounds::one(), a, 1, u);
    lemma_quotient_values(x, y, wide_bounds::exact(v.quotient(w)), a, b, c, d, low, high, u);
}

/// Quotients of a number that is not positive by a positive one.
pub proof fn lemma_negative_quotient(
    v: Wide,
    w: Wide,
    a: int,
    b: int,
    c: int,
    d: int,
    low: int,
    high: int,
)
    requires
        lies(v, -b, -a),
        lies(w, c, d),
        holds_quotients(a, b, c, d, low, high),
    ensures
        lies(v.quotient(w), -high, -low),
{
    let u = form_arithmetic::part();
    let (x, y) = (-wide_bounds::exact(v), wide_bounds::exact(w));
    let found = -wide_bounds::exact(v.quotient(w));
    let one = wide_bounds::one();
    form_arithmetic::lemma_parts();
    lemma_turned(-b, -a, u);
    lemma_turned(-high, -low, u);
    lemma_moderate(v, -b, -a);
    lemma_moderate(w, c, d);
    lemma_divisor(y, c, u);
    wide_bounds::a_quotient_is_close(v, w);
    assert((-x) * one == -(x * one) && (-found) * y == -(found * y)) by (nonlinear_arith);
    lemma_sign(x, y, a, c, u);
    lemma_sign(x, one, a, 1, u);
    lemma_quotient_values(x, y, found, a, b, c, d, low, high, u);
}

/// Whether two values differ by one part at most.
pub open spec fn agree(x: int, y: int) -> bool {
    -form_arithmetic::part() <= x - y <= form_arithmetic::part()
}

/// A sum and a difference, against the exact ones.
pub proof fn lemma_sum_agrees(v: Wide, w: Wide)
    requires
        lies(v, -0x4_0000_0000_0000, 0x4_0000_0000_0000),
        lies(w, -0x4_0000_0000_0000, 0x4_0000_0000_0000),
    ensures
        v.sum(w).finite(),
        v.difference(w).finite(),
        agree(wide_bounds::exact(v.sum(w)), wide_bounds::exact(v) + wide_bounds::exact(w)),
        agree(wide_bounds::exact(v.difference(w)), wide_bounds::exact(v) - wide_bounds::exact(w)),
{
    form_arithmetic::lemma_parts();
    lemma_moderate(v, -0x4_0000_0000_0000, 0x4_0000_0000_0000);
    lemma_moderate(w, -0x4_0000_0000_0000, 0x4_0000_0000_0000);
    wide_bounds::a_sum_is_close(v, w);
    wide_bounds::a_difference_is_close(v, w);
}

/// A small whole multiple, against the exact one.
pub proof fn lemma_multiple_agrees(k: Wide, n: int, v: Wide)
    requires
        k.finite(),
        wide_bounds::exact(k) == n * wide_bounds::one(),
        -16 <= n <= 16,
        lies(v, -0x1000_0000_0000, 0x1000_0000_0000),
    ensures
        k.product(v).finite(),
        agree(wide_bounds::exact(k.product(v)), n * wide_bounds::exact(v)),
{
    let (u, b) = (form_arithmetic::part(), wide_bounds::one());
    let (x, y) = (wide_bounds::exact(k), wide_bounds::exact(v));
    let found = wide_bounds::exact(k.product(v));
    form_arithmetic::lemma_parts();
    let nb = n * b;
    assert(-16 * b <= nb <= 16 * b) by (nonlinear_arith)
        requires
            nb == n * b,
            -16 <= n <= 16,
            b > 0,
    ;
    lemma_moderate(v, -0x1000_0000_0000, 0x1000_0000_0000);
    wide_bounds::a_product_is_close(k, v);
    let ny = n * y;
    assert(x * y == ny * b) by (nonlinear_arith)
        requires
            x == n * b,
            ny == n * y,
    ;
    assert(-(16 * 0x1000_0000_0000 * u) <= ny <= 16 * 0x1000_0000_0000 * u)
        by (nonlinear_arith)
        requires
            ny == n * y,
            -16 <= n <= 16,
            -(0x1000_0000_0000 * u) <= y <= 0x1000_0000_0000 * u,
            u > 0,
    ;
    let size = 0x1_0000_0000_0000 * u;
    assert(-(size * b) <= ny * b <= size * b) by (nonlinear_arith)
        requires
            -size <= ny <= size,
            b > 0,
    ;
    assert(found - ny <= u && ny - found <= u) by (nonlinear_arith)
        requires
            (found * b - ny * b) * 0x10_0000_0000_0000 <= size * b + b * 0x10_0000_0000_0000,
            (ny * b - found * b) * 0x10_0000_0000_0000 <= size * b + b * 0x10_0000_0000_0000,
            size == 0x1_0000_0000_0000 * u,
            u >= 16,
            b > 0,
    {
        assert(((found - ny) * 0x10_0000_0000_0000) * b <= (size + 0x10_0000_0000_0000) * b);
        assert(((ny - found) * 0x10_0000_0000_0000) * b <= (size + 0x10_0000_0000_0000) * b);
        assert((found - ny) * 0x10_0000_0000_0000 <= size + 0x10_0000_0000_0000);
        assert((ny - found) * 0x10_0000_0000_0000 <= size + 0x10_0000_0000_0000);
    }
}

/// The size of a product, whatever the signs.
pub proof fn lemma_product_size(v: Wide, w: Wide, b: int, d: int, high: int)
    requires
        lies(v, -b, b),
        lies(w, -d, d),
        0 <= b <= 0x1_0000_0000_0000_0000_0000_0000,
        0 <= d <= 0x1_0000_0000_0000_0000_0000_0000,
        b * d * 0x4_0000_0000_0001 <= (high - 1) * 0x400_0000_0000_0000_0000_0000,
    ensures
        lies(v.product(w), -high, high),
{
    let (u, one) = (form_arithmetic::part(), wide_bounds::one());
    let (x, y) = (wide_bounds::exact(v), wide_bounds::exact(w));
    let found = wide_bounds::exact(v.product(w));
    form_arithmetic::lemma_parts();
    lemma_moderate(v, -b, b);
    lemma_moderate(w, -d, d);
    wide_bounds::a_product_is_close(v, w);
    lemma_turned(b, d, u);
    lemma_turned(high, high, u);
    let (bu, du) = (b * u, d * u);
    let xy = x * y;
    assert(-(bu * du) <= xy <= bu * du) by (nonlinear_arith)
        requires
            xy == x * y,
            -bu <= x <= bu,
            -du <= y <= du,
    {
        assert((bu - x) * (du + y) >= 0);
        assert((bu + x) * (du - y) >= 0);
        assert((bu - x) * (du - y) >= 0);
        assert((bu + x) * (du + y) >= 0);
    }
    form_arithmetic::lemma_both_times(b, d, u);
    let (bd, uu) = (b * d, u * u);
    let (bdu, hu) = (bd * uu, (high - 1) * uu);
    let fu = found * u;
    assert(uu >= 0) by (nonlinear_arith)
        requires
            uu == u * u,
            u > 0,
    ;
    assert(bdu * 0x4_0000_0000_0001 <= hu * 0x400_0000_0000_0000_0000_0000) by (nonlinear_arith)
        requires
            bd * 0x4_0000_0000_0001 <= (high - 1) * 0x400_0000_0000_0000_0000_0000,
            hu == (high - 1) * uu,
            bdu == bd * uu,
            uu >= 0,
    {
        assert((bd * 0x4_0000_0000_0001) * uu <= ((high - 1) * 0x400_0000_0000_0000_0000_0000)
            * uu);
    }
    assert(found * one == 0x100_0000_0000 * fu) by (nonlinear_arith)
        requires
            fu == found * u,
            one == 0x100_0000_0000 * u,
    ;
    assert(-hu - u <= fu <= hu + u);
    assert(-(high * u) <= found <= high * u) by (nonlinear_arith)
        requires
            found * u <= (high - 1) * uu + u,
            -((high - 1) * uu) - u <= found * u,
            uu == u * u,
            u > 1,
    {
        assert(found * u <= ((high - 1) * u + 1) * u);
        assert((-((high - 1) * u) - 1) * u <= found * u);
        assert(found <= (high - 1) * u + 1);
        assert(-((high - 1) * u) - 1 <= found);
    }
}

/// The size of a quotient, whatever the sign of what is divided.
pub proof fn lemma_quotient_size(v: Wide, w: Wide, b: int, c: int, d: int, high: int)
    requires
        lies(v, -b, b),
        lies(w, c, d),
        0 <= b <= 0x1_0000_0000_0000_0000_0000_0000,
        1 <= c,
        d <= 0x1_0000_0000_0000_0000_0000_0000,
        1 <= high,
        b * 0x400_0000_0000_0100_0000_0000 <= (high - 1) * c * 0x4_0000_0000_0000,
    ensures
        lies(v.quotient(w), -high, high),
{
    let (u, one) = (form_arithmetic::part(), wide_bounds::one());
    let (x, y) = (wide_bounds::exact(v), wide_bounds::exact(w));
    form_arithmetic::lemma_parts();
    lemma_turned(b, d, u);
    lemma_turned(high, high, u);
    lemma_moderate(v, -b, b);
    lemma_moderate(w, c, d);
    lemma_divisor(y, c, u);
    wide_bounds::a_quotient_is_close(v, w);
    let found = wide_bounds::exact(v.quotient(w));
    assert((-x) * one == -(x * one) && (-found) * y == -(found * y)) by (nonlinear_arith);
    if x >= 0 {
        lemma_sign(x, one, 0, 1, u);
        lemma_quotient_below(x, y, found, b, c, high, u);
    } else {
        lemma_sign(-x, one, 0, 1, u);
        lemma_quotient_below(-x, y, -found, b, c, high, u);
    }
}

proof fn lemma_quotient_below(x: int, y: int, found: int, b: int, c: int, high: int, u: int)
    requires
        u >= 0x10_0000_0000_0000,
        0 <= x <= b * u,
        c * u <= y,
        1 <= c,
        1 <= high,
        b * 0x400_0000_0000_0100_0000_0000 <= (high - 1) * c * 0x4_0000_0000_0000,
        ({
            let xb = x * (0x100_0000_0000 * u);
            &&& (found * y - xb) * 0x10_0000_0000_0000 <= xb + y * 0x10_0000_0000_0000
            &&& (xb - found * y) * 0x10_0000_0000_0000 <= xb + y * 0x10_0000_0000_0000
        }),
    ensures
        -(high * u) <= found <= high * u,
{
    let uu = u * u;
    let fy = found * y;
    let xu = x * u;
    let bu = b * uu;
    let hc = (high - 1) * c;
    let hcu = hc * uu;
    let hu = (high - 1) * u;
    let huy = hu * y;
    assert(x * (0x100_0000_0000 * u) == 0x100_0000_0000 * xu) by (nonlinear_arith)
        requires
            xu == x * u,
    ;
    assert(0 <= xu <= bu && uu >= 0 && y > 0) by (nonlinear_arith)
        requires
            0 <= x <= b * u,
            c * u <= y,
            bu == b * uu,
            uu == u * u,
            xu == x * u,
            u > 0,
            c >= 1,
    ;
    assert(bu * 0x400_0000_0000_0100_0000_0000 <= hcu * 0x4_0000_0000_0000) by (nonlinear_arith)
        requires
            b * 0x400_0000_0000_0100_0000_0000 <= hc * 0x4_0000_0000_0000,
            hcu == hc * uu,
            bu == b * uu,
            uu >= 0,
    {
        assert((b * 0x400_0000_0000_0100_0000_0000) * uu <= (hc * 0x4_0000_0000_0000) * uu);
    }
    assert(huy >= hcu && hu >= 0 && huy >= 0) by (nonlinear_arith)
        requires
            huy == hu * y,
            hu == (high - 1) * u,
            hcu == hc * uu,
            hc == (high - 1) * c,
            uu == u * u,
            y >= c * u,
            y > 0,
            high >= 1,
            u > 0,
    {
        assert(hu >= 0);
        assert(hu * y >= hu * (c * u));
        assert(hu * (c * u) == ((high - 1) * c) * (u * u));
    }
    assert(-huy - y <= fy <= huy + y);
    assert(-hu - 1 <= found <= hu + 1) by (nonlinear_arith)
        requires
            -(hu * y) - y <= found * y <= hu * y + y,
            y > 0,
    {
        assert((-hu - 1) * y <= found * y);
        assert(found * y <= (hu + 1) * y);
    }
    assert(hu == high * u - u) by (nonlinear_arith)
        requires
            hu == (high - 1) * u,
    ;
}

/// A quotient, against the exact one: multiplied by what it was divided by,
/// it differs by one part of that at most.
pub proof fn lemma_ratio_agrees(v: Wide, w: Wide)
    requires
        lies(v, -0x1000_0000_0000, 0x1000_0000_0000),
        lies(w, 0x20_0000_0000, 0x1000_0000_0000),
    ensures
        v.quotient(w).finite(),
        is_ratio(wide_bounds::exact(v.quotient(w)), wide_bounds::exact(v), wide_bounds::exact(w)),
{
    let (u, one) = (form_arithmetic::part(), wide_bounds::one());
    let (x, d) = (wide_bounds::exact(v), wide_bounds::exact(w));
    form_arithmetic::lemma_parts();
    lemma_moderate(v, -0x1000_0000_0000, 0x1000_0000_0000);
    lemma_moderate(w, 0x20_0000_0000, 0x1000_0000_0000);
    lemma_divisor(d, 0x20_0000_0000, u);
    wide_bounds::a_quotient_is_close(v, w);
    let xb = x * one;
    let du = d * u;
    assert(-(0x8000_0000_0000 * du) <= xb <= 0x8000_0000_0000 * du && du >= d * 16)
        by (nonlinear_arith)
        requires
            xb == x * one,
            du == d * u,
            -(0x1000_0000_0000 * u) <= x <= 0x1000_0000_0000 * u,
            8 * d >= one,
            one > 0,
            u >= 16,
    {
        assert(x * one <= (0x1000_0000_0000 * u) * one);
        assert(x * one >= -(0x1000_0000_0000 * u) * one);
        assert(u * one <= u * (8 * d));
    }
}

/// Whether a value is a quotient, in parts, but for one part.
pub open spec fn is_ratio(v: int, m: int, d: int) -> bool {
    let u = form_arithmetic::part();
    -(d * u) <= v * d - m * (0x100_0000_0000 * u) <= d * u
}

/// A linear combination of two quotients by the same number.
pub proof fn lemma_combined(
    v: int,
    w: int,
    d: int,
    m: int,
    n: int,
    c: int,
    e: int,
    size: int,
    l: int,
    u: int,
)
    requires
        u > 0,
        d > 0,
        u == form_arithmetic::part(),
        is_ratio(v, m, d),
        is_ratio(w, n, d),
        size >= c,
        size >= -c,
        size >= e,
        size >= -e,
        (c * m + e * n) * 0x100_0000_0000 >= (l + 2 * size) * d,
    ensures
        c * v + e * w >= l * u,
{
    let du = d * u;
    let (vd, wd) = (v * d, w * d);
    let (mb, nb) = (m * (0x100_0000_0000 * u), n * (0x100_0000_0000 * u));
    let (p, q) = (vd - mb, wd - nb);
    assert(c * p >= -(size * du)) by (nonlinear_arith)
        requires
            -du <= p <= du,
            -size <= c <= size,
    {
        assert((size - c) * (du + p) >= 0);
        assert((size + c) * (du - p) >= 0);
        assert((size - c) * (du + p) + (size + c) * (du - p) == 2 * (size * du) - 2 * (c * p));
        assert((size + c) * (du + p) >= 0);
        assert((size - c) * (du - p) >= 0);
        assert((size + c) * (du + p) + (size - c) * (du - p) == 2 * (size * du) + 2 * (c * p));
    }
    assert(e * q >= -(size * du)) by (nonlinear_arith)
        requires
            -du <= q <= du,
            -size <= e <= size,
    {
        assert((size + e) * (du + q) >= 0);
        assert((size - e) * (du - q) >= 0);
        assert((size + e) * (du + q) + (size - e) * (du - q) == 2 * (size * du) + 2 * (e * q));
    }
    assert(c * p == c * vd - c * mb && e * q == e * wd - e * nb) by (nonlinear_arith)
        requires
            p == vd - mb,
            q == wd - nb,
    ;
    let whole = (c * m + e * n) * 0x100_0000_0000;
    assert(c * mb + e * nb == whole * u) by (nonlinear_arith)
        requires
            mb == m * (0x100_0000_0000 * u),
            nb == n * (0x100_0000_0000 * u),
            whole == (c * m + e * n) * 0x100_0000_0000,
    ;
    assert(whole * u >= ((l + 2 * size) * d) * u) by (nonlinear_arith)
        requires
            whole >= (l + 2 * size) * d,
            u > 0,
    ;
    assert(((l + 2 * size) * d) * u == l * du + 2 * (size * du)) by (nonlinear_arith)
        requires
            du == d * u,
    ;
    let total = c * v + e * w;
    assert(total * d == c * vd + e * wd) by (nonlinear_arith)
        requires
            total == c * v + e * w,
            vd == v * d,
            wd == w * d,
    ;
    assert(total * d >= l * du);
    assert(total >= l * u) by (nonlinear_arith)
        requires
            total * d >= l * du,
            du == d * u,
            d > 0,
    {
        assert(l * du == (l * u) * d);
    }
}

} // verus!
