//! Wide numbers that are nearly linear in three others.

use vstd::arithmetic::power2::*;
use vstd::prelude::*;

use crate::number::binary::Format;
use crate::number::bounds;
use crate::number::rounding;
use crate::number::wide::Wide;
use crate::number::wide_bounds;
use crate::render::white_balance::Triple;

verus! {

/// One part in 2^40 of one, in units.
pub open spec fn part() -> int {
    pow2(1034) as int
}

pub proof fn lemma_parts()
    ensures
        wide_bounds::one() == 0x100_0000_0000 * part(),
        part() >= 0x10_0000_0000_0000_0000_0000_0000,
        pow2(1134) == 0x10_0000_0000_0000_0000_0000_0000 * part(),
{
    lemma2_to64();
    lemma2_to64_rest();
    lemma_pow2_adds(1034, 40);
    lemma_pow2_adds(64, 36);
    lemma_pow2_adds(100, 934);
    lemma_pow2_pos(934);
    lemma_pow2_adds(1034, 100);
    assert(pow2(100) == 0x10_0000_0000_0000_0000_0000_0000);
    let p = part();
    assert(p >= 0x10_0000_0000_0000_0000_0000_0000) by (nonlinear_arith)
        requires
            p == 0x10_0000_0000_0000_0000_0000_0000 * pow2(934),
            pow2(934) >= 1,
    ;
    assert(pow2(1134) == 0x10_0000_0000_0000_0000_0000_0000 * p) by (nonlinear_arith)
        requires
            pow2(1134) == p * pow2(100),
            pow2(100) == 0x10_0000_0000_0000_0000_0000_0000,
    ;
}

/// Whether a number is a count of parts, but for a few of them.
pub open spec fn is_near(v: Wide, r: int, e: int) -> bool {
    &&& v.finite()
    &&& -(e * part()) <= wide_bounds::exact(v) - r * part() <= e * part()
}

/// A linear form, or a point to take it at.
pub struct Form {
    pub a: int,
    pub b: int,
    pub c: int,
}

impl Form {
    pub open spec fn at(self, s: Form) -> int {
        self.a * s.a + self.b * s.b + self.c * s.c
    }

    /// The sum of the sizes.
    pub open spec fn weight(self) -> int {
        bounds::absolute(self.a) + bounds::absolute(self.b) + bounds::absolute(self.c)
    }

    pub open spec fn plus(self, other: Form) -> Form {
        Form { a: self.a + other.a, b: self.b + other.b, c: self.c + other.c }
    }

    /// Whether the point is at most eight from zero in all directions.
    pub open spec fn is_small(self) -> bool {
        let limit = 8 * wide_bounds::one();
        &&& -limit <= self.a <= limit
        &&& -limit <= self.b <= limit
        &&& -limit <= self.c <= limit
    }
}

/// Whether a number is what a form gives at a point, but for some parts. The
/// form counts in parts.
pub open spec fn is_form(v: Wide, f: Form, s: Form, e: int) -> bool {
    &&& v.finite()
    &&& -(e * wide_bounds::one()) <= wide_bounds::exact(v) * 0x100_0000_0000 - f.at(s) <= e
        * wide_bounds::one()
}

/// What a product of a form and a constant is off: `x` nearly is the form
/// `phi`, `y` nearly is the constant `q`, and `p` is their product.
proof fn lemma_scaled_values(
    x: int,
    y: int,
    p: int,
    phi: int,
    gamma: int,
    q: int,
    e: int,
    f: int,
    fs: int,
    d: int,
    g: int,
    b: int,
    u: int,
)
    requires
        u >= 0x1000_0000_0000_0000,
        b == 0x100_0000_0000 * u,
        (p * b - x * y) * 0x10_0000_0000_0000 <= bounds::absolute(x * y) + b * 0x10_0000_0000_0000,
        (x * y - p * b) * 0x10_0000_0000_0000 <= bounds::absolute(x * y) + b * 0x10_0000_0000_0000,
        -(e * b) <= x * 0x100_0000_0000 - phi <= e * b,
        -(f * u) <= y - q * u <= f * u,
        -8 * (b * fs) <= phi <= 8 * (b * fs),
        -8 * (b * d) <= phi * q - 0x100_0000_0000 * gamma <= 8 * (b * d),
        0 <= e <= 0x4000_0000,
        0 <= f <= 0x10_0000,
        -0x800_0000_0000 <= q <= 0x800_0000_0000,
        0 <= fs <= 0x1000_0000_0000,
        0 <= d,
        g * 0x100_0000_0000 >= 2 * 0x100_0000_0000 + e * (bounds::absolute(q) + f) + 8 * (fs * f)
            + 8 * d,
    ensures
        -(g * b) <= p * 0x100_0000_0000 - gamma <= g * b,
{
    let aq = bounds::absolute(q);
    let bu = b * u;
    let xy = x * y;
    let pb = p * b;
    let n: int = 0x100_0000_0000;
    assert(bu == n * (u * u)) by (nonlinear_arith)
        requires
            bu == b * u,
            b == n * u,
    ;
    assert(b <= bu) by (nonlinear_arith)
        requires
            bu == b * u,
            u >= 1,
            b >= 0,
    ;
    // The sizes of the operands.
    let ax = (8 * fs + e) * u;
    assert(e * b == n * (e * u) && b * fs == n * (fs * u)) by (nonlinear_arith)
        requires
            b == n * u,
    ;
    assert(ax == 8 * (fs * u) + e * u) by (nonlinear_arith)
        requires
            ax == (8 * fs + e) * u,
    ;
    assert(-ax <= x <= ax);
    let ay = (aq + f) * u;
    assert(-ay <= y <= ay) by (nonlinear_arith)
        requires
            -(f * u) <= y - q * u <= f * u,
            ay == (aq + f) * u,
            -aq <= q <= aq,
            u > 0,
    ;
    assert(bounds::absolute(xy) <= ax * ay) by {
        assert(xy <= ax * ay && -xy <= ax * ay) by (nonlinear_arith)
            requires
                xy == x * y,
                -ax <= x <= ax,
                -ay <= y <= ay,
        ;
    }
    assert(ax * ay <= 0x10_0000_0000_0000 * bu) by (nonlinear_arith)
        requires
            ax == (8 * fs + e) * u,
            ay == (aq + f) * u,
            0 <= 8 * fs + e <= 0x1_0000_0000_0000,
            0 <= aq + f <= 0x1000_0000_0000,
            bu == n * (u * u),
            n == 0x100_0000_0000,
    {
        let k1 = 8 * fs + e;
        let k2 = aq + f;
        assert(k1 * k2 <= 0x1_0000_0000_0000 * 0x1000_0000_0000);
        assert(ax * ay == (k1 * k2) * (u * u));
    }
    // What each step is off.
    assert(-2 * bu <= pb - xy <= 2 * bu);
    let xny = x * n * y;
    assert(xny == n * xy) by (nonlinear_arith)
        requires
            xny == x * n * y,
            xy == x * y,
    ;
    let first = e * (aq + f);
    assert(-(first * bu) <= xny - phi * y <= first * bu) by (nonlinear_arith)
        requires
            xny == x * n * y,
            -(e * b) <= x * n - phi <= e * b,
            -ay <= y <= ay,
            ay == (aq + f) * u,
            first == e * (aq + f),
            bu == b * u,
            e >= 0,
            b >= 0,
    {
        let off = x * n - phi;
        let eb = e * b;
        assert(off * y <= eb * ay && off * y >= -(eb * ay));
        assert(off * y == xny - phi * y);
        assert(eb * ay == first * bu);
    }
    let second = 8 * (fs * f);
    assert(-(second * bu) <= phi * y - phi * (q * u) <= second * bu) by (nonlinear_arith)
        requires
            -8 * (b * fs) <= phi <= 8 * (b * fs),
            -(f * u) <= y - q * u <= f * u,
            second == 8 * (fs * f),
            bu == b * u,
    {
        let off = y - q * u;
        let top = 8 * (b * fs);
        let fu = f * u;
        assert(phi * off <= top * fu && phi * off >= -(top * fu));
        assert(phi * off == phi * y - phi * (q * u));
        assert(top * fu == second * bu);
    }
    let third = 8 * d;
    assert(-(third * bu) <= phi * (q * u) - gamma * b <= third * bu) by (nonlinear_arith)
        requires
            -8 * (b * d) <= phi * q - n * gamma <= 8 * (b * d),
            third == 8 * d,
            bu == b * u,
            b == n * u,
            u > 0,
    {
        let off = phi * q - n * gamma;
        assert(off * u <= 8 * (b * d) * u && off * u >= -(8 * (b * d) * u));
        assert(off * u == phi * (q * u) - gamma * b);
        assert(8 * (b * d) * u == third * bu);
    }
    let all = 2 * n + first + second + third;
    assert(all * bu == 2 * n * bu + first * bu + second * bu + third * bu) by (nonlinear_arith)
        requires
            all == 2 * n + first + second + third,
    ;
    let left = p * n - gamma;
    assert(left * b == n * pb - gamma * b) by (nonlinear_arith)
        requires
            left == p * n - gamma,
            pb == p * b,
    ;
    assert(all * bu <= g * n * bu) by (nonlinear_arith)
        requires
            all <= g * n,
            bu >= 0,
    ;
    assert(g * n * bu == (g * b) * b) by (nonlinear_arith)
        requires
            bu == b * u,
            b == n * u,
    ;
    let gb = g * b;
    assert(-(gb * b) <= left * b <= gb * b);
    assert(-gb <= left <= gb) by (nonlinear_arith)
        requires
            -(gb * b) <= left * b <= gb * b,
            b > 0,
    ;
}

/// How large a form is at a small point.
pub proof fn lemma_form_size(f: Form, s: Form)
    requires
        s.is_small(),
    ensures
        -8 * (wide_bounds::one() * f.weight()) <= f.at(s) <= 8 * (wide_bounds::one() * f.weight()),
{
    let limit = 8 * wide_bounds::one();
    lemma_term_size(f.a, s.a, limit);
    lemma_term_size(f.b, s.b, limit);
    lemma_term_size(f.c, s.c, limit);
    let w = f.weight();
    let (wa, wb, wc) = (
        bounds::absolute(f.a),
        bounds::absolute(f.b),
        bounds::absolute(f.c),
    );
    let b = wide_bounds::one();
    assert(wa * limit + wb * limit + wc * limit == 8 * (b * w)) by (nonlinear_arith)
        requires
            limit == 8 * b,
            w == wa + wb + wc,
    ;
}

pub proof fn lemma_term_size(x: int, y: int, limit: int)
    requires
        -limit <= y <= limit,
    ensures
        -(bounds::absolute(x) * limit) <= x * y <= bounds::absolute(x) * limit,
{
    let ax = bounds::absolute(x);
    assert(x * y <= ax * limit && x * y >= -(ax * limit)) by (nonlinear_arith)
        requires
            -limit <= y <= limit,
            -ax <= x <= ax,
    ;
}

/// The product of a form and a constant is a form.
proof fn lemma_scaled(
    v: Wide,
    k: Wide,
    f: Form,
    s: Form,
    e: int,
    q: int,
    h: int,
    to: Form,
    g: int,
)
    requires
        is_form(v, f, s, e),
        is_near(k, q, h),
        s.is_small(),
        f.weight() <= 0x1000_0000_0000,
        0 <= e <= 0x4000_0000,
        0 <= h <= 0x10_0000,
        -0x800_0000_0000 <= q <= 0x800_0000_0000,
        ({
            let off = Form {
                a: f.a * q - 0x100_0000_0000 * to.a,
                b: f.b * q - 0x100_0000_0000 * to.b,
                c: f.c * q - 0x100_0000_0000 * to.c,
            };
            g * 0x100_0000_0000 >= 2 * 0x100_0000_0000 + e * (bounds::absolute(q) + h) + 8 * (
            f.weight() * h) + 8 * off.weight()
        }),
    ensures
        is_form(v.product(k), to, s, g),
        is_form(k.product(v), to, s, g),
{
    let b = wide_bounds::one();
    let u = part();
    lemma_parts();
    let x = wide_bounds::exact(v);
    let y = wide_bounds::exact(k);
    let off = Form {
        a: f.a * q - 0x100_0000_0000 * to.a,
        b: f.b * q - 0x100_0000_0000 * to.b,
        c: f.c * q - 0x100_0000_0000 * to.c,
    };
    lemma_form_size(f, s);
    lemma_form_size(off, s);
    lemma_sizes_are_moderate(x, f.at(s), e, f.weight(), b, u);
    assert(wide_bounds::moderate(v));
    assert(q * u <= 0x800_0000_0000 * u && -(0x800_0000_0000 * u) <= q * u && h * u <= 0x10_0000
        * u) by (nonlinear_arith)
        requires
            -0x800_0000_0000 <= q <= 0x800_0000_0000,
            0 <= h <= 0x10_0000,
            u > 0,
    ;
    assert(wide_bounds::moderate(k));
    wide_bounds::a_product_is_close(v, k);
    lemma_product_commutes(v, k);
    let p = wide_bounds::exact(v.product(k));
    let phi = f.at(s);
    let gamma = to.at(s);
    lemma_scaled_term(f.a, q, to.a, s.a);
    lemma_scaled_term(f.b, q, to.b, s.b);
    lemma_scaled_term(f.c, q, to.c, s.c);
    assert(phi * q == f.a * s.a * q + f.b * s.b * q + f.c * s.c * q) by (nonlinear_arith)
        requires
            phi == f.a * s.a + f.b * s.b + f.c * s.c,
    ;
    lemma_scaled_values(x, y, p, phi, gamma, q, e, h, f.weight(), off.weight(), g, b, u);
}

proof fn lemma_scaled_term(x: int, q: int, t: int, y: int)
    ensures
        (x * q - 0x100_0000_0000 * t) * y == x * y * q - 0x100_0000_0000 * (t * y),
{
    assert((x * q - 0x100_0000_0000 * t) * y == x * y * q - 0x100_0000_0000 * (t * y))
        by (nonlinear_arith);
}

proof fn lemma_sizes_are_moderate(x: int, phi: int, e: int, weight: int, b: int, u: int)
    requires
        u > 0,
        b == 0x100_0000_0000 * u,
        0 <= e <= 0x4000_0000,
        0 <= weight <= 0x1_0000_0000_0000,
        -(e * b) <= x * 0x100_0000_0000 - phi <= e * b,
        -8 * (b * weight) <= phi <= 8 * (b * weight),
    ensures
        bounds::absolute(x) <= 8 * (weight * u) + 0x4000_0000 * u,
        weight * u <= 0x1_0000_0000_0000 * u,
{
    assert(b * weight == 0x100_0000_0000 * (weight * u)) by (nonlinear_arith)
        requires
            b == 0x100_0000_0000 * u,
    ;
    assert(weight * u <= 0x1_0000_0000_0000 * u) by (nonlinear_arith)
        requires
            weight <= 0x1_0000_0000_0000,
            u > 0,
    ;
    assert(e * b <= 0x4000_0000 * b) by (nonlinear_arith)
        requires
            e <= 0x4000_0000,
            b >= 0,
    ;
}

/// The order of the operands does not matter to a product.
proof fn lemma_product_commutes(a: Wide, c: Wide)
    ensures
        a.product(c) == c.product(a),
{
    reveal(Wide::product);
    let x = a.value().size(Format::Double);
    let y = c.value().size(Format::Double);
    assert(x * y == y * x) by (nonlinear_arith);
}

/// A sum of forms at a point.
pub proof fn lemma_plus_at(f: Form, g: Form, s: Form)
    ensures
        f.plus(g).at(s) == f.at(s) + g.at(s),
{
    assert(f.plus(g).at(s) == f.at(s) + g.at(s)) by (nonlinear_arith)
        requires
            f.plus(g).at(s) == (f.a + g.a) * s.a + (f.b + g.b) * s.b + (f.c + g.c) * s.c,
            f.at(s) == f.a * s.a + f.b * s.b + f.c * s.c,
            g.at(s) == g.a * s.a + g.b * s.b + g.c * s.c,
    ;
}

/// The sum of two forms is a form.
proof fn lemma_added(v: Wide, w: Wide, f: Form, g: Form, s: Form, e: int, h: int)
    requires
        is_form(v, f, s, e),
        is_form(w, g, s, h),
        s.is_small(),
        f.weight() + g.weight() <= 0x1_0000_0000_0000,
        0 <= e <= 0x4000_0000,
        0 <= h <= 0x4000_0000,
    ensures
        is_form(v.sum(w), f.plus(g), s, e + h + 1),
{
    let b = wide_bounds::one();
    let u = part();
    lemma_parts();
    let x = wide_bounds::exact(v);
    let y = wide_bounds::exact(w);
    lemma_form_size(f, s);
    lemma_form_size(g, s);
    lemma_sizes_are_moderate(x, f.at(s), e, f.weight(), b, u);
    lemma_sizes_are_moderate(y, g.at(s), h, g.weight(), b, u);
    wide_bounds::a_sum_is_close(v, w);
    lemma_plus_at(f, g, s);
    assert((e + h + 1) * b == e * b + h * b + b) by (nonlinear_arith);
    let (wf, wg) = (f.weight(), g.weight());
    assert(wf * u + wg * u <= 0x1_0000_0000_0000 * u) by (nonlinear_arith)
        requires
            wf + wg <= 0x1_0000_0000_0000,
            u > 0,
    ;
}

/// A form that differs a little is as good, with a larger allowance.
proof fn lemma_other_form(v: Wide, f: Form, to: Form, s: Form, e: int, g: int)
    requires
        is_form(v, f, s, e),
        s.is_small(),
        ({
            let off = Form { a: f.a - to.a, b: f.b - to.b, c: f.c - to.c };
            g >= e + 8 * off.weight()
        }),
    ensures
        is_form(v, to, s, g),
{
    let off = Form { a: f.a - to.a, b: f.b - to.b, c: f.c - to.c };
    let b = wide_bounds::one();
    lemma_parts();
    lemma_form_size(off, s);
    assert(off.at(s) == f.at(s) - to.at(s)) by (nonlinear_arith)
        requires
            off.at(s) == (f.a - to.a) * s.a + (f.b - to.b) * s.b + (f.c - to.c) * s.c,
            f.at(s) == f.a * s.a + f.b * s.b + f.c * s.c,
            to.at(s) == to.a * s.a + to.b * s.b + to.c * s.c,
    ;
    let w = off.weight();
    assert(e * b + 8 * (b * w) <= g * b) by (nonlinear_arith)
        requires
            g >= e + 8 * w,
            b >= 0,
    ;
}

/// Three forms.
pub struct Forms {
    pub a: Form,
    pub b: Form,
    pub c: Form,
}

/// Three counts of parts.
pub struct Counts {
    pub a: int,
    pub b: int,
    pub c: int,
}

impl Forms {
    pub open spec fn weight(self) -> int {
        self.a.weight() + self.b.weight() + self.c.weight()
    }
}

impl Counts {
    pub open spec fn weight(self) -> int {
        bounds::absolute(self.a) + bounds::absolute(self.b) + bounds::absolute(self.c)
    }
}

pub open spec fn are_forms(v: Triple, f: Forms, s: Form, e: int) -> bool {
    is_form(v.a, f.a, s, e) && is_form(v.b, f.b, s, e) && is_form(v.c, f.c, s, e)
}

pub open spec fn are_near(v: Triple, q: Counts, e: int) -> bool {
    is_near(v.a, q.a, e) && is_near(v.b, q.b, e) && is_near(v.c, q.c, e)
}

/// Whether a number of parts is a sum of three products, but for a few.
pub open spec fn is_sum_of_products(
    r: int,
    x: int,
    p: int,
    y: int,
    q: int,
    z: int,
    o: int,
) -> bool {
    let off = x * p + y * q + z * o - 0x100_0000_0000 * r;
    -0x400_0000_0000 <= off <= 0x400_0000_0000
}

/// Whether a form is the sum of three forms times constants, but for a few
/// parts.
pub open spec fn is_dot(to: Form, f: Forms, q: Counts) -> bool {
    &&& is_sum_of_products(to.a, f.a.a, q.a, f.b.a, q.b, f.c.a, q.c)
    &&& is_sum_of_products(to.b, f.a.b, q.a, f.b.b, q.b, f.c.b, q.c)
    &&& is_sum_of_products(to.c, f.a.c, q.a, f.b.c, q.b, f.c.c, q.c)
}

/// A form times a constant, in whole parts.
spec fn scaled(f: Form, q: int) -> Form {
    Form {
        a: f.a * q / 0x100_0000_0000,
        b: f.b * q / 0x100_0000_0000,
        c: f.c * q / 0x100_0000_0000,
    }
}

/// A form times a constant in whole parts is less than one part off.
proof fn lemma_whole_parts(v: Wide, k: Wide, f: Form, s: Form, e: int, q: int, h: int, g: int)
    requires
        is_form(v, f, s, e),
        is_near(k, q, h),
        s.is_small(),
        f.weight() <= 0x100_0000_0000 * 16,
        0 <= e <= 0x4000_0000,
        0 <= h <= 0x10_0000,
        -0x800_0000_0000 <= q <= 0x800_0000_0000,
        g * 0x100_0000_0000 >= 26 * 0x100_0000_0000 + e * (bounds::absolute(q) + h) + 8 * (
        f.weight() * h),
    ensures
        is_form(v.product(k), scaled(f, q), s, g),
        is_form(k.product(v), scaled(f, q), s, g),
        scaled(f, q).weight() <= 8 * f.weight() + 3,
{
    let to = scaled(f, q);
    lemma_count_size(f.a, q);
    lemma_count_size(f.b, q);
    lemma_count_size(f.c, q);
    lemma_scaled(v, k, f, s, e, q, h, to, g);
}

proof fn lemma_count_size(x: int, q: int)
    requires
        -0x800_0000_0000 <= q <= 0x800_0000_0000,
    ensures
        0 <= x * q - 0x100_0000_0000 * (x * q / 0x100_0000_0000) < 0x100_0000_0000,
        bounds::absolute(x * q / 0x100_0000_0000) <= 8 * bounds::absolute(x) + 1,
{
    let ax = bounds::absolute(x);
    assert(x * q <= 0x800_0000_0000 * ax && x * q >= -(0x800_0000_0000 * ax)) by (nonlinear_arith)
        requires
            -0x800_0000_0000 <= q <= 0x800_0000_0000,
            -ax <= x <= ax,
    ;
}

/// The product of a row of forms and a column of constants, either way.
pub proof fn lemma_dot(
    v: Triple,
    k: Triple,
    f: Forms,
    s: Form,
    e: int,
    q: Counts,
    h: int,
    to: Form,
    scale: int,
    g: int,
)
    requires
        are_forms(v, f, s, e),
        are_near(k, q, h),
        s.is_small(),
        f.weight() <= 0x100_0000_0000 * 16,
        q.weight() <= 0x100_0000_0000 * scale,
        0 < scale <= 8,
        0 <= e <= 0x100_0000,
        0 <= h <= 0x200,
        is_dot(to, f, q),
        g >= scale * e + 128 * h + 300,
        g <= 0x4000_0000,
    ensures
        is_form(v.dot(k), to, s, g),
        is_form(k.dot(v), to, s, g),
{
    let n: int = 0x100_0000_0000;
    let (wa, wb, wc) = (f.a.weight(), f.b.weight(), f.c.weight());
    let (qa, qb, qc) = (bounds::absolute(q.a), bounds::absolute(q.b), bounds::absolute(q.c));
    lemma_allowance(e, h, wa, qa, n);
    lemma_allowance(e, h, wb, qb, n);
    lemma_allowance(e, h, wc, qc, n);
    lemma_total_allowance(e, h, wa, wb, wc, qa, qb, qc, scale, n);
    let ga = allowance(e, h, wa, qa);
    let gb = allowance(e, h, wb, qb);
    let gc = allowance(e, h, wc, qc);
    lemma_whole_parts(v.a, k.a, f.a, s, e, q.a, h, ga);
    lemma_whole_parts(v.b, k.b, f.b, s, e, q.b, h, gb);
    lemma_whole_parts(v.c, k.c, f.c, s, e, q.c, h, gc);
    let (ta, tb, tc) = (scaled(f.a, q.a), scaled(f.b, q.b), scaled(f.c, q.c));
    lemma_three_added(
        v.a.product(k.a),
        v.b.product(k.b),
        v.c.product(k.c),
        ta,
        tb,
        tc,
        s,
        ga,
        gb,
        gc,
    );
    lemma_three_added(
        k.a.product(v.a),
        k.b.product(v.b),
        k.c.product(v.c),
        ta,
        tb,
        tc,
        s,
        ga,
        gb,
        gc,
    );
    let all = ta.plus(tb).plus(tc);
    lemma_counts_add_up(to, f, q);
    lemma_other_form(v.dot(k), all, to, s, ga + gb + gc + 2, g);
    lemma_other_form(k.dot(v), all, to, s, ga + gb + gc + 2, g);
}

/// The allowance for one product.
spec fn allowance(e: int, h: int, w: int, q: int) -> int {
    27 + (e * (q + h) + 8 * (w * h)) / 0x100_0000_0000
}

proof fn lemma_three_added(
    x: Wide,
    y: Wide,
    z: Wide,
    fx: Form,
    fy: Form,
    fz: Form,
    s: Form,
    gx: int,
    gy: int,
    gz: int,
)
    requires
        is_form(x, fx, s, gx),
        is_form(y, fy, s, gy),
        is_form(z, fz, s, gz),
        s.is_small(),
        fx.weight() + fy.weight() + fz.weight() <= 0x1_0000_0000_0000,
        0 <= gx <= 0x1fff_ffff,
        0 <= gy <= 0x1fff_ffff,
        0 <= gz <= 0x1fff_ffff,
    ensures
        is_form(x.sum(y).sum(z), fx.plus(fy).plus(fz), s, gx + gy + gz + 2),
{
    lemma_added(x, y, fx, fy, s, gx, gy);
    assert(fx.plus(fy).weight() <= fx.weight() + fy.weight());
    lemma_added(x.sum(y), z, fx.plus(fy), fz, s, gx + gy + 1, gz);
}

proof fn lemma_counts_add_up(to: Form, f: Forms, q: Counts)
    requires
        is_dot(to, f, q),
        q.weight() <= 0x800_0000_0000,
    ensures
        ({
            let all = scaled(f.a, q.a).plus(scaled(f.b, q.b)).plus(scaled(f.c, q.c));
            let off = Form { a: all.a - to.a, b: all.b - to.b, c: all.c - to.c };
            off.weight() <= 24
        }),
{
    lemma_count_size(f.a.a, q.a);
    lemma_count_size(f.b.a, q.b);
    lemma_count_size(f.c.a, q.c);
    lemma_count_size(f.a.b, q.a);
    lemma_count_size(f.b.b, q.b);
    lemma_count_size(f.c.b, q.c);
    lemma_count_size(f.a.c, q.a);
    lemma_count_size(f.b.c, q.b);
    lemma_count_size(f.c.c, q.c);
}

proof fn lemma_total_allowance(
    e: int,
    h: int,
    wa: int,
    wb: int,
    wc: int,
    qa: int,
    qb: int,
    qc: int,
    scale: int,
    n: int,
)
    requires
        n == 0x100_0000_0000,
        0 <= e <= 0x100_0000,
        0 <= h <= 0x200,
        0 <= wa,
        0 <= wb,
        0 <= wc,
        0 <= qa,
        0 <= qb,
        0 <= qc,
        wa + wb + wc <= n * 16,
        qa + qb + qc <= n * scale,
    ensures
        allowance(e, h, wa, qa) + allowance(e, h, wb, qb) + allowance(e, h, wc, qc) <= 82 + scale
            * e + 128 * h,
{
    let ta = e * (qa + h) + 8 * (wa * h);
    let tb = e * (qb + h) + 8 * (wb * h);
    let tc = e * (qc + h) + 8 * (wc * h);
    let qs = qa + qb + qc;
    let ws = wa + wb + wc;
    assert(ta + tb + tc == e * qs + 3 * (e * h) + 8 * (ws * h)) by (nonlinear_arith)
        requires
            ta == e * (qa + h) + 8 * (wa * h),
            tb == e * (qb + h) + 8 * (wb * h),
            tc == e * (qc + h) + 8 * (wc * h),
            qs == qa + qb + qc,
            ws == wa + wb + wc,
    ;
    let se = scale * e;
    assert(e * qs <= n * se) by (nonlinear_arith)
        requires
            qs <= n * scale,
            se == scale * e,
            e >= 0,
    ;
    assert(ws * h <= 16 * (n * h)) by (nonlinear_arith)
        requires
            ws <= n * 16,
            h >= 0,
    ;
    assert(e * h <= 0x2_0000_0000) by (nonlinear_arith)
        requires
            0 <= e <= 0x100_0000,
            0 <= h <= 0x200,
    ;
}

proof fn lemma_allowance(e: int, h: int, w: int, q: int, n: int)
    requires
        n == 0x100_0000_0000,
        0 <= e <= 0x100_0000,
        0 <= h <= 0x200,
        0 <= w <= n * 16,
        0 <= q <= n * 8,
    ensures
        ({
            let total = e * (q + h) + 8 * (w * h);
            let g = 27 + total / n;
            &&& 0 <= total
            &&& total / n <= total
            &&& n * (total / n) <= total
            &&& g * n >= 26 * n + total
            &&& 0 <= g <= 0x1800_0000
        }),
{
    let total = e * (q + h) + 8 * (w * h);
    assert(0 <= total <= n * 0x1000_0000) by (nonlinear_arith)
        requires
            total == e * (q + h) + 8 * (w * h),
            0 <= e <= 0x100_0000,
            0 <= h <= 0x200,
            0 <= w <= n * 16,
            0 <= q <= n * 8,
            n == 0x100_0000_0000,
    ;
}

/// A number given by its bits: `q` times two to the power of `k` units, which
/// is `r` parts and less than one more or less.
pub proof fn lemma_constant(bits: u64, k: nat, q: nat, r: int, shift: nat)
    requires
        ({
            let code = if bits >= 0x8000_0000_0000_0000 {
                bits - 0x8000_0000_0000_0000
            } else {
                bits as int
            };
            let size = if bits >= 0x8000_0000_0000_0000 {
                -r
            } else {
                r
            };
            &&& code == k * 0x10_0000_0000_0000 + q
            &&& code < 0x7ff0_0000_0000_0000
            &&& 0x10_0000_0000_0000 <= q < 0x20_0000_0000_0000
            &&& k + shift == 1034
            &&& -(pow2(shift) as int) <= q - size * pow2(shift) <= pow2(shift)
        }),
    ensures
        is_near(Wide { bits }, r, 1),
{
    lemma2_to64();
    lemma2_to64_rest();
    rounding::lemma_encode(k, q, 53);
    lemma_pow2_adds(k, shift);
    lemma_pow2_pos(k);
    let v = Wide { bits };
    let size = if bits >= 0x8000_0000_0000_0000 {
        -r
    } else {
        r
    };
    let p = pow2(k) as int;
    let d = pow2(shift) as int;
    let u = part();
    assert(u == p * d);
    let m = q * p;
    assert(v.value().size(Format::Double) == m);
    assert(-u <= m - size * u <= u) by (nonlinear_arith)
        requires
            m == q * p,
            u == p * d,
            -d <= q - size * d <= d,
            p > 0,
    {
        let off = q - size * d;
        assert(off * p == m - size * u);
        assert(off * p <= d * p && off * p >= -(d * p));
    }
    assert(-size * u == -(size * u)) by (nonlinear_arith);
}

/// A positive number given by its bits, which is a count of parts.
pub proof fn lemma_exact_constant(bits: u64, k: nat, q: nat, r: int, shift: nat)
    requires
        bits == k * 0x10_0000_0000_0000 + q,
        bits < 0x7ff0_0000_0000_0000,
        0x10_0000_0000_0000 <= q < 0x20_0000_0000_0000,
        k + shift == 1034,
        q == r * pow2(shift),
    ensures
        is_near(Wide { bits }, r, 0),
{
    lemma2_to64();
    lemma2_to64_rest();
    rounding::lemma_encode(k, q, 53);
    lemma_pow2_adds(k, shift);
    let (p, d, u) = (pow2(k) as int, pow2(shift) as int, part());
    assert(q * p == r * u) by (nonlinear_arith)
        requires
            q == r * d,
            u == p * d,
    ;
    assert((Wide { bits }).value().size(Format::Double) == q * p);
    assert(0 * u == 0);
}

/// The sum and the difference of two numbers near counts of parts.
pub proof fn lemma_near_sum(v: Wide, w: Wide, r: int, q: int, e: int, h: int)
    requires
        is_near(v, r, e),
        is_near(w, q, h),
        -0x4000_0000_0000 <= r <= 0x4000_0000_0000,
        -0x4000_0000_0000 <= q <= 0x4000_0000_0000,
        0 <= e <= 0x10_0000,
        0 <= h <= 0x10_0000,
    ensures
        is_near(v.sum(w), r + q, e + h + 1),
        is_near(v.difference(w), r - q, e + h + 1),
{
    let u = part();
    lemma_parts();
    lemma_near_size(v, r, e);
    lemma_near_size(w, q, h);
    wide_bounds::a_sum_is_close(v, w);
    wide_bounds::a_difference_is_close(v, w);
    assert((r + q) * u == r * u + q * u && (r - q) * u == r * u - q * u) by (nonlinear_arith);
    assert((e + h + 1) * u == e * u + h * u + u) by (nonlinear_arith);
}

proof fn lemma_near_size(v: Wide, r: int, e: int)
    requires
        is_near(v, r, e),
        -0x4000_0000_0000 <= r <= 0x4000_0000_0000,
        0 <= e <= 0x10_0000,
    ensures
        wide_bounds::moderate(v),
        bounds::absolute(wide_bounds::exact(v)) <= 0x4001_0000_0000 * part(),
{
    let u = part();
    lemma_parts();
    assert(r * u <= 0x4000_0000_0000 * u && r * u >= -(0x4000_0000_0000 * u) && e * u <= 0x10_0000
        * u) by (nonlinear_arith)
        requires
            -0x4000_0000_0000 <= r <= 0x4000_0000_0000,
            e <= 0x10_0000,
            u > 0,
    ;
}

/// The product of two numbers near counts of parts.
pub proof fn lemma_near_product(
    v: Wide,
    w: Wide,
    r: int,
    q: int,
    e: int,
    h: int,
    t: int,
    g: int,
)
    requires
        is_near(v, r, e),
        is_near(w, q, h),
        -0x800_0000_0000 <= r <= 0x800_0000_0000,
        -0x800_0000_0000 <= q <= 0x800_0000_0000,
        0 <= e <= 0x10_0000,
        0 <= h <= 0x10_0000,
        -0x100_0000_0000 <= r * q - 0x100_0000_0000 * t <= 0x100_0000_0000,
        g * 0x100_0000_0000 >= 4 * 0x100_0000_0000 + e * (bounds::absolute(q) + h) + (
        bounds::absolute(r) + 8) * h,
    ensures
        is_near(v.product(w), t, g),
{
    let u = part();
    let b = wide_bounds::one();
    let n: int = 0x100_0000_0000;
    lemma_parts();
    lemma_near_size(v, r, e);
    lemma_near_size(w, q, h);
    wide_bounds::a_product_is_close(v, w);
    let x = wide_bounds::exact(v);
    let y = wide_bounds::exact(w);
    let p = wide_bounds::exact(v.product(w));
    let fs = (bounds::absolute(r) + 7) / 8;
    let d: int = 0x20_0000_0000;
    let phi = r * b;
    let gamma = t * b;
    assert(r * b == n * (r * u) && e * b == n * (e * u)) by (nonlinear_arith)
        requires
            b == n * u,
    ;
    assert(-8 * (b * fs) <= phi <= 8 * (b * fs)) by (nonlinear_arith)
        requires
            phi == r * b,
            -8 * fs <= r <= 8 * fs,
            b > 0,
    ;
    let off = r * q - n * t;
    assert(phi * q - n * gamma == off * b) by (nonlinear_arith)
        requires
            phi == r * b,
            gamma == t * b,
            off == r * q - n * t,
    ;
    assert(-8 * (b * d) <= off * b <= 8 * (b * d)) by (nonlinear_arith)
        requires
            -8 * d <= off <= 8 * d,
            b > 0,
    ;
    assert(8 * (fs * h) <= (bounds::absolute(r) + 8) * h) by (nonlinear_arith)
        requires
            8 * fs <= bounds::absolute(r) + 8,
            h >= 0,
    ;
    lemma_scaled_values(x, y, p, phi, gamma, q, e, h, fs, d, g, b, u);
    assert(t * b == n * (t * u) && g * b == n * (g * u)) by (nonlinear_arith)
        requires
            b == n * u,
    ;
}

/// The quotient of two numbers near counts of parts.
pub proof fn lemma_near_quotient(
    v: Wide,
    w: Wide,
    r: int,
    q: int,
    e: int,
    h: int,
    t: int,
    g: int,
)
    requires
        is_near(v, r, e),
        is_near(w, q, h),
        -0x800_0000_0000 <= r <= 0x800_0000_0000,
        0x10_0000_0000 <= q <= 0x800_0000_0000,
        -0x4000_0000_0000 <= t <= 0x4000_0000_0000,
        0 <= e <= 0x10_0000,
        0 <= h <= 0x10_0000,
        0 <= g,
        g * (q - h) >= bounds::absolute(r * 0x100_0000_0000 - t * q) + e * 0x100_0000_0000
            + bounds::absolute(t) * h + 0x10_0000_0000,
    ensures
        is_near(v.quotient(w), t, g),
{
    let u = part();
    let b = wide_bounds::one();
    let n: int = 0x100_0000_0000;
    lemma_parts();
    lemma_near_size(v, r, e);
    lemma_near_size(w, q, h);
    let x = wide_bounds::exact(v);
    let y = wide_bounds::exact(w);
    let p = wide_bounds::exact(v.quotient(w));
    assert(h * u <= 0x10_0000 * u && q * u >= 0x10_0000_0000 * u) by (nonlinear_arith)
        requires
            h <= 0x10_0000,
            q >= 0x10_0000_0000,
            u > 0,
    ;
    assert(y >= 0x8_0000_0000 * u);
    lemma2_to64();
    lemma_pow2_adds(64, 136);
    lemma_pow2_pos(136);
    assert(y * pow2(200) >= b) by (nonlinear_arith)
        requires
            y >= 0x8_0000_0000 * u,
            pow2(200) == 0x1_0000_0000_0000_0000 * pow2(136),
            pow2(136) >= 1,
            b == 0x100_0000_0000 * u,
            u > 0,
    {
        assert(pow2(200) >= 0x1_0000_0000_0000_0000);
        assert(y * pow2(200) >= y * 0x1_0000_0000_0000_0000);
    }
    wide_bounds::a_quotient_is_close(v, w);
    let xb = x * b;
    let py = p * y;
    let uu = u * u;
    // What rounding adds.
    assert(bounds::absolute(xb) <= 0x4001_0000_0000 * n * uu) by {
        let ax = 0x4001_0000_0000 * u;
        assert(xb <= ax * b && xb >= -(ax * b)) by (nonlinear_arith)
            requires
                xb == x * b,
                -ax <= x <= ax,
                b > 0,
        ;
        assert(ax * b == 0x4001_0000_0000 * n * uu) by (nonlinear_arith)
            requires
                ax == 0x4001_0000_0000 * u,
                b == n * u,
                uu == u * u,
        ;
    }
    assert(0x1000_0000_0000_0000 * u <= uu) by (nonlinear_arith)
        requires
            uu == u * u,
            u >= 0x1000_0000_0000_0000,
    ;
    assert(-0x10_0000_0000 * uu <= py - xb <= 0x10_0000_0000 * uu);
    // What the operands are off.
    assert(-(e * n * uu) <= xb - r * n * uu <= e * n * uu) by (nonlinear_arith)
        requires
            xb == x * b,
            -(e * u) <= x - r * u <= e * u,
            b == n * u,
            uu == u * u,
            u > 0,
            n == 0x100_0000_0000,
    {
        let off = x - r * u;
        assert(off * b <= e * u * b && off * b >= -(e * u * b));
        assert(off * b == xb - r * n * uu);
        assert(e * u * b == e * n * uu);
    }
    let tu = t * u;
    let at = bounds::absolute(t);
    assert(-(at * h * uu) <= tu * y - t * q * uu <= at * h * uu) by (nonlinear_arith)
        requires
            tu == t * u,
            -(h * u) <= y - q * u <= h * u,
            -at <= t <= at,
            uu == u * u,
            u > 0,
            h >= 0,
    {
        let off = y - q * u;
        let hu = h * u;
        let atu = at * u;
        assert(-atu <= tu <= atu);
        assert(tu * off <= atu * hu && tu * off >= -(atu * hu));
        assert(tu * off == tu * y - t * q * uu);
        assert(atu * hu == at * h * uu);
    }
    let gap = r * n - t * q;
    let ag = bounds::absolute(gap);
    assert(r * n * uu - t * q * uu == gap * uu) by (nonlinear_arith)
        requires
            gap == r * n - t * q,
    ;
    assert(-(ag * uu) <= gap * uu <= ag * uu) by (nonlinear_arith)
        requires
            -ag <= gap <= ag,
            uu >= 0,
    ;
    let all = ag + e * n + at * h + 0x10_0000_0000;
    assert(all * uu == ag * uu + e * n * uu + at * h * uu + 0x10_0000_0000 * uu)
        by (nonlinear_arith)
        requires
            all == ag + e * n + at * h + 0x10_0000_0000,
    ;
    assert(-(all * uu) <= py - tu * y <= all * uu);
    let left = p - tu;
    let gu = g * u;
    assert(left * y == py - tu * y) by (nonlinear_arith)
        requires
            left == p - tu,
            py == p * y,
    ;
    assert(all * uu <= gu * y) by (nonlinear_arith)
        requires
            all <= g * (q - h),
            gu == g * u,
            y >= q * u - h * u,
            g >= 0,
            u > 0,
            uu == u * u,
    {
        let low = (q - h) * u;
        assert(y >= low);
        assert(gu * y >= gu * low);
        assert(gu * low == g * (q - h) * uu);
        assert(g * (q - h) * uu >= all * uu);
    }
    assert(-gu <= left <= gu) by (nonlinear_arith)
        requires
            -(gu * y) <= left * y <= gu * y,
            y > 0,
    ;
}

/// A large number given by its bits: `q` times two to the power of `k` units,
/// which is a count of parts.
pub proof fn lemma_large_constant(bits: u64, k: nat, q: nat, shift: nat)
    requires
        ({
            let code = if bits >= 0x8000_0000_0000_0000 {
                bits - 0x8000_0000_0000_0000
            } else {
                bits as int
            };
            &&& code == k * 0x10_0000_0000_0000 + q
            &&& code < 0x7ff0_0000_0000_0000
            &&& 0x10_0000_0000_0000 <= q < 0x20_0000_0000_0000
            &&& k == 1034 + shift
        }),
    ensures
        is_near(
            Wide { bits },
            if bits >= 0x8000_0000_0000_0000 {
                -(q * pow2(shift))
            } else {
                q * pow2(shift) as int
            },
            0,
        ),
{
    lemma2_to64();
    lemma2_to64_rest();
    rounding::lemma_encode(k, q, 53);
    lemma_pow2_adds(1034, shift);
    let u = part();
    let d = pow2(shift) as int;
    assert(q * pow2(k) == (q * d) * u) by (nonlinear_arith)
        requires
            pow2(k) == u * d,
    ;
    assert(-(q * d) * u == -((q * d) * u)) by (nonlinear_arith);
    assert(0 * u == 0);
}

/// How large a number near a large count is.
proof fn lemma_large_size(v: Wide, r: int, e: int, top: int)
    requires
        is_near(v, r, e),
        bounds::absolute(r) + e <= top <= 0x4_0000_0000_0000_0000_0000_0000,
        0 <= e,
    ensures
        wide_bounds::moderate(v),
        bounds::absolute(wide_bounds::exact(v)) <= top * part(),
{
    let u = part();
    lemma_parts();
    assert(-(top * u) <= r * u - e * u && r * u + e * u <= top * u && top * u
        <= 0x4_0000_0000_0000_0000_0000_0000 * u) by (nonlinear_arith)
        requires
            -top <= r - e,
            r + e <= top,
            top <= 0x4_0000_0000_0000_0000_0000_0000,
            u > 0,
    ;
}

/// The product of two numbers near large counts of parts.
pub proof fn lemma_large_product(
    v: Wide,
    w: Wide,
    r: int,
    q: int,
    ar: int,
    aq: int,
    e: int,
    h: int,
    t: int,
    g: int,
)
    requires
        is_near(v, r, e),
        is_near(w, q, h),
        ar == bounds::absolute(r),
        aq == bounds::absolute(q),
        0 <= e,
        0 <= h,
        0 <= g,
        ar + e <= 0x4_0000_0000_0000_0000_0000_0000,
        aq + h <= 0x4_0000_0000_0000_0000_0000_0000,
        g * 0x100_0000_0000 >= bounds::absolute(r * q - 0x100_0000_0000 * t) + e * (aq + h) + ar * h
            + ((ar + e) * (aq + h)) / 0x10_0000_0000_0000 + 2,
    ensures
        is_near(v.product(w), t, g),
{
    let u = part();
    let b = wide_bounds::one();
    let n: int = 0x100_0000_0000;
    lemma_parts();
    lemma_large_size(v, r, e, ar + e);
    lemma_large_size(w, q, h, aq + h);
    wide_bounds::a_product_is_close(v, w);
    let x = wide_bounds::exact(v);
    let y = wide_bounds::exact(w);
    let p = wide_bounds::exact(v.product(w));
    let uu = u * u;
    let xy = x * y;
    let tops = (ar + e) * (aq + h);
    lemma_large_factors(x, y, r, q, e, h, u);
    let gap = r * q - n * t;
    let ag = bounds::absolute(gap);
    assert(r * q * uu - t * n * uu == gap * uu) by (nonlinear_arith)
        requires
            gap == r * q - n * t,
    ;
    assert(-(ag * uu) <= gap * uu <= ag * uu) by (nonlinear_arith)
        requires
            -ag <= gap <= ag,
            uu >= 0,
    ;
    let d = tops / 0x10_0000_0000_0000;
    assert(tops * uu <= (d + 1) * 0x10_0000_0000_0000 * uu) by (nonlinear_arith)
        requires
            tops <= (d + 1) * 0x10_0000_0000_0000,
            uu >= 0,
    ;
    assert(b <= uu) by (nonlinear_arith)
        requires
            b == n * u,
            n <= u,
            uu == u * u,
            u > 0,
    ;
    let off = e * (aq + h) + ar * h;
    let all = ag + off + d + 2;
    assert(all * uu == ag * uu + off * uu + (d + 1) * uu + uu) by (nonlinear_arith)
        requires
            all == ag + off + d + 2,
    ;
    let pb = p * b;
    assert((d + 1) * 0x10_0000_0000_0000 * uu == 0x10_0000_0000_0000 * ((d + 1) * uu))
        by (nonlinear_arith);
    assert(-(all * uu) <= pb - t * n * uu <= all * uu);
    let left = p - t * u;
    let gu = g * u;
    assert(left * b == pb - t * n * uu) by (nonlinear_arith)
        requires
            left == p - t * u,
            pb == p * b,
            b == n * u,
            uu == u * u,
    ;
    assert(all * uu <= gu * b) by (nonlinear_arith)
        requires
            all <= g * n,
            gu == g * u,
            b == n * u,
            uu == u * u,
            u > 0,
    {
        assert(gu * b == g * n * uu);
        assert(all * uu <= g * n * uu);
    }
    assert(-gu <= left <= gu) by (nonlinear_arith)
        requires
            -(gu * b) <= left * b <= gu * b,
            b > 0,
    ;
}

/// The exact product of two numbers near counts.
proof fn lemma_large_factors(x: int, y: int, r: int, q: int, e: int, h: int, u: int)
    requires
        u > 0,
        0 <= e,
        0 <= h,
        -(e * u) <= x - r * u <= e * u,
        -(h * u) <= y - q * u <= h * u,
    ensures
        ({
            let (ar, aq) = (bounds::absolute(r), bounds::absolute(q));
            let off = e * (aq + h) + ar * h;
            &&& -(off * (u * u)) <= x * y - r * q * (u * u) <= off * (u * u)
            &&& bounds::absolute(x * y) <= (ar + e) * (aq + h) * (u * u)
        }),
{
    let (ar, aq) = (bounds::absolute(r), bounds::absolute(q));
    let (dx, dy) = (x - r * u, y - q * u);
    let uu = u * u;
    let ru = r * u;
    let (eu, hu, aru, aqu) = (e * u, h * u, ar * u, aq * u);
    assert(-aru <= ru <= aru && -aqu <= q * u <= aqu) by (nonlinear_arith)
        requires
            ru == r * u,
            aru == ar * u,
            aqu == aq * u,
            -ar <= r <= ar,
            -aq <= q <= aq,
            u > 0,
    ;
    let ay = aqu + hu;
    assert(-ay <= y <= ay);
    assert(-(eu * ay) <= dx * y <= eu * ay) by (nonlinear_arith)
        requires
            -eu <= dx <= eu,
            -ay <= y <= ay,
    ;
    assert(-(aru * hu) <= ru * dy <= aru * hu) by (nonlinear_arith)
        requires
            -aru <= ru <= aru,
            -hu <= dy <= hu,
    ;
    assert(x * y - r * q * uu == dx * y + ru * dy) by (nonlinear_arith)
        requires
            dx == x - r * u,
            dy == y - q * u,
            ru == r * u,
            uu == u * u,
    ;
    let off = e * (aq + h) + ar * h;
    lemma_both_times(e, aq + h, u);
    lemma_both_times(ar, h, u);
    assert(ay == (aq + h) * u) by (nonlinear_arith)
        requires
            ay == aq * u + h * u,
    ;
    assert(off * uu == e * (aq + h) * uu + ar * h * uu) by (nonlinear_arith)
        requires
            off == e * (aq + h) + ar * h,
    ;
    let ax = aru + eu;
    assert(-ax <= x <= ax);
    assert(x * y <= ax * ay && -(x * y) <= ax * ay) by (nonlinear_arith)
        requires
            -ax <= x <= ax,
            -ay <= y <= ay,
    ;
    lemma_both_times(ar + e, aq + h, u);
    assert(ax == (ar + e) * u) by (nonlinear_arith)
        requires
            ax == ar * u + e * u,
    ;
}

pub proof fn lemma_both_times(x: int, y: int, u: int)
    ensures
        (x * u) * (y * u) == x * y * (u * u),
{
    assert((x * u) * (y * u) == x * y * (u * u)) by (nonlinear_arith);
}

/// The quotient of two numbers near large counts of parts.
pub proof fn lemma_large_quotient(
    v: Wide,
    w: Wide,
    r: int,
    q: int,
    e: int,
    h: int,
    t: int,
    g: int,
)
    requires
        is_near(v, r, e),
        is_near(w, q, h),
        0 <= e,
        0 <= h,
        0 <= g,
        h < q,
        bounds::absolute(r) + e <= 0x4_0000_0000_0000_0000_0000_0000,
        q + h <= 0x4_0000_0000_0000_0000_0000_0000,
        g * (q - h) >= bounds::absolute(r * 0x100_0000_0000 - t * q) + e * 0x100_0000_0000
            + bounds::absolute(t) * h + ((bounds::absolute(r) + e) * 0x100_0000_0000)
            / 0x10_0000_0000_0000 + 2,
    ensures
        is_near(v.quotient(w), t, g),
{
    let u = part();
    let b = wide_bounds::one();
    let n: int = 0x100_0000_0000;
    let (ar, at) = (bounds::absolute(r), bounds::absolute(t));
    lemma_parts();
    lemma_large_size(v, r, e, ar + e);
    lemma_large_size(w, q, h, q + h);
    let x = wide_bounds::exact(v);
    let y = wide_bounds::exact(w);
    let low = (q - h) * u;
    assert(low == q * u - h * u && low >= u) by (nonlinear_arith)
        requires
            low == (q - h) * u,
            q - h >= 1,
            u > 0,
    ;
    lemma2_to64();
    lemma_pow2_adds(64, 136);
    lemma_pow2_pos(136);
    assert(y * pow2(200) >= b) by (nonlinear_arith)
        requires
            y >= u,
            pow2(200) == 0x1_0000_0000_0000_0000 * pow2(136),
            pow2(136) >= 1,
            b == n * u,
            n == 0x100_0000_0000,
            u > 0,
    {
        assert(pow2(200) >= n);
        assert(y * pow2(200) >= u * n);
    }
    wide_bounds::a_quotient_is_close(v, w);
    let p = wide_bounds::exact(v.quotient(w));
    let uu = u * u;
    let xb = x * b;
    let py = p * y;
    // The dividend is one as many parts.
    assert(n * u == b && 0 * u == 0);
    lemma_large_factors(x, b, r, n, e, 0, u);
    assert(e * (n + 0) + ar * 0 == e * n && (ar + e) * (n + 0) == (ar + e) * n)
        by (nonlinear_arith);
    let tops = (ar + e) * n;
    let d = tops / 0x10_0000_0000_0000;
    assert(tops * uu <= (d + 1) * 0x10_0000_0000_0000 * uu) by (nonlinear_arith)
        requires
            tops <= (d + 1) * 0x10_0000_0000_0000,
            uu >= 0,
    ;
    assert((d + 1) * 0x10_0000_0000_0000 * uu == 0x10_0000_0000_0000 * ((d + 1) * uu))
        by (nonlinear_arith);
    assert(y <= uu) by {
        let top = q + h;
        assert(top * u <= uu) by (nonlinear_arith)
            requires
                top <= u,
                uu == u * u,
                u > 0,
        ;
        assert(top * u == q * u + h * u) by (nonlinear_arith)
            requires
                top == q + h,
        ;
    }
    // The divisor times the expected quotient.
    let tu = t * u;
    assert(0 <= uu) by (nonlinear_arith)
        requires
            uu == u * u,
    ;
    assert(-(at * h * uu) <= tu * y - t * q * uu <= at * h * uu) by {
        lemma_large_factors(tu, y, t, q, 0, h, u);
        assert(0 * (bounds::absolute(q) + h) + at * h == at * h) by (nonlinear_arith);
    }
    let gap = r * n - t * q;
    let ag = bounds::absolute(gap);
    assert(r * n * uu - t * q * uu == gap * uu) by (nonlinear_arith)
        requires
            gap == r * n - t * q,
    ;
    assert(-(ag * uu) <= gap * uu <= ag * uu) by (nonlinear_arith)
        requires
            -ag <= gap <= ag,
            uu >= 0,
    ;
    let all = ag + e * n + at * h + d + 2;
    assert(all * uu == ag * uu + e * n * uu + at * h * uu + (d + 1) * uu + uu) by (nonlinear_arith)
        requires
            all == ag + e * n + at * h + d + 2,
    ;
    assert(-(all * uu) <= py - tu * y <= all * uu);
    let left = p - tu;
    let gu = g * u;
    assert(left * y == py - tu * y) by (nonlinear_arith)
        requires
            left == p - tu,
            py == p * y,
    ;
    assert(all * uu <= gu * y) by (nonlinear_arith)
        requires
            all <= g * (q - h),
            gu == g * u,
            y >= low,
            low == (q - h) * u,
            g >= 0,
            u > 0,
            uu == u * u,
    {
        assert(gu * y >= gu * low);
        assert(gu * low == g * (q - h) * uu);
        assert(g * (q - h) * uu >= all * uu);
    }
    assert(-gu <= left <= gu) by (nonlinear_arith)
        requires
            -(gu * y) <= left * y <= gu * y,
            y > 0,
    ;
}

} // verus!
