//! What holds of the adaptation to a white.

use vstd::arithmetic::power2::*;
use vstd::prelude::*;

use crate::document::curve_laws;
use crate::number::binary::Format;
use crate::number::bounds;
use crate::number::constants;
use crate::number::laws;
use crate::number::rounding;
use crate::number::scalar::Scalar;
use crate::number::wide::Wide;
use crate::number::wide_bounds;
use crate::render::form_arithmetic;
use crate::render::form_arithmetic::{Counts, Form, Forms};
use crate::render::white_balance;
use crate::render::white_balance::{Matrix, NarrowMatrix, NarrowTriple, Pair, Triple};

verus! {

/// Three rows of counts.
pub struct CountRows {
    pub first: Counts,
    pub second: Counts,
    pub third: Counts,
}

/// Three rows of forms.
pub struct FormRows {
    pub first: Forms,
    pub second: Forms,
    pub third: Forms,
}

impl CountRows {
    /// The columns as rows.
    pub open spec fn flipped(self) -> CountRows {
        CountRows {
            first: Counts { a: self.first.a, b: self.second.a, c: self.third.a },
            second: Counts { a: self.first.b, b: self.second.b, c: self.third.b },
            third: Counts { a: self.first.c, b: self.second.c, c: self.third.c },
        }
    }
}

impl FormRows {
    /// The columns as rows.
    pub open spec fn flipped(self) -> FormRows {
        FormRows {
            first: Forms { a: self.first.a, b: self.second.a, c: self.third.a },
            second: Forms { a: self.first.b, b: self.second.b, c: self.third.b },
            third: Forms { a: self.first.c, b: self.second.c, c: self.third.c },
        }
    }
}

/// Whether the numbers of a matrix are near counts of parts.
pub open spec fn rows_are_near(m: Matrix, q: CountRows, e: int) -> bool {
    &&& form_arithmetic::are_near(m.first, q.first, e)
    &&& form_arithmetic::are_near(m.second, q.second, e)
    &&& form_arithmetic::are_near(m.third, q.third, e)
}

/// Whether the numbers of a matrix are forms at a point.
pub open spec fn rows_are_forms(m: Matrix, f: FormRows, s: Form, e: int) -> bool {
    &&& form_arithmetic::are_forms(m.first, f.first, s, e)
    &&& form_arithmetic::are_forms(m.second, f.second, s, e)
    &&& form_arithmetic::are_forms(m.third, f.third, s, e)
}

/// From tristimulus values to the responses of the cones, in parts.
pub open spec fn cat16_counts() -> CountRows {
    CountRows {
        first: Counts { a: 441220822087, b: 714872773566, c: -56581967877 },
        second: Counts { a: -275172576060, b: 1324267197656, c: 50417006180 },
        third: Counts { a: -2285884674, b: 53823293203, c: 1047974219247 },
    }
}

/// From linear light to tristimulus values, in parts.
pub open spec fn rgb_to_xyz_counts() -> CountRows {
    CountRows {
        first: Counts { a: 453500607751, b: 393159079765, c: 198393129337 },
        second: Counts { a: 233836326463, b: 786318159530, c: 79357251735 },
        third: Counts { a: 21257847860, b: 131052989938, c: 1044870407873 },
    }
}

/// From tristimulus values to linear light, in parts.
pub open spec fn xyz_to_rgb_counts() -> CountRows {
    CountRows {
        first: Counts { a: 3562917072176, b: -1690101654252, c: -548141071111 },
        second: Counts { a: -1065719237408, b: 2062695688433, c: 45691305204 },
        third: Counts { a: 61180565309, b: -224328849417, c: 1162431400578 },
    }
}

/// From the responses of the cones to tristimulus values, in parts.
pub open spec fn inverse_counts() -> CountRows {
    CountRows {
        first: Counts { a: 2047365258376, b: -1111886224913, c: 164032594312 },
        second: Counts { a: 426089940359, b: 683288688456, c: -9867001039 },
        third: Counts { a: -17417912186, b: -37518567136, c: 1154448107100 },
    }
}

/// The responses to the reference white, in parts.
pub open spec fn reference_counts() -> Counts {
    Counts { a: 1072612688388, b: 1117634823127, c: 1192955106634 }
}

pub proof fn lemma_cat16()
    ensures
        rows_are_near(white_balance::cat16_values(), cat16_counts(), 1),
{
    lemma2_to64();
    form_arithmetic::lemma_constant(0x3fd9aeb3dd11be6e, 1020, 7228961949073006, 441220822087, 14);
    form_arithmetic::lemma_constant(0x3fe4ce379b77c02b, 1021, 5856237761052715, 714872773566, 13);
    form_arithmetic::lemma_constant(0xbfaa5918a009f623, 1017, 7416311693571619, -56581967877, 17);
    form_arithmetic::lemma_constant(0xbfd0046412cf0f9d, 1020, 4508427486171037, -275172576060, 14);
    form_arithmetic::lemma_constant(0x3ff345479d4d8341, 1022, 5424198441599809, 1324267197656, 12);
    form_arithmetic::lemma_constant(0x3fa77a2cecc814d7, 1017, 6608257834030295, 50417006180, 17);
    form_arithmetic::lemma_constant(0xbf6107faa044ae86, 1013, 4793847616155270, -2285884674, 21);
    form_arithmetic::lemma_constant(0x3fa9103c8e25c811, 1017, 7054726686689297, 53823293203, 17);
    form_arithmetic::lemma_constant(0x3fee800431bde82d, 1021, 8585004804073517, 1047974219247, 13);
}

proof fn lemma_rgb_to_xyz()
    ensures
        rows_are_near(white_balance::rgb_to_xyz_values(), rgb_to_xyz_counts(), 1),
{
    lemma2_to64();
    form_arithmetic::lemma_constant(0x3fda65af8741a841, 1020, 7430153957386305, 453500607751, 14);
    form_arithmetic::lemma_constant(0x3fd6e286ddd532cd, 1020, 6441518362866381, 393159079765, 14);
    form_arithmetic::lemma_constant(0x3fc7189374bc6a7f, 1019, 6500946062109311, 198393129337, 15);
    form_arithmetic::lemma_constant(0x3fcb38dd971f6bd6, 1019, 7662348745534422, 233836326463, 15);
    form_arithmetic::lemma_constant(0x3fe6e286ddd532cd, 1021, 6441518362866381, 786318159530, 13);
    form_arithmetic::lemma_constant(0x3fb27a0f9096bb99, 1018, 5200756849687449, 79357251735, 16);
    form_arithmetic::lemma_constant(0x3f93cc4410d1089c, 1016, 5572617269479580, 21257847860, 18);
    form_arithmetic::lemma_constant(0x3fbe835dedf1e083, 1018, 8588688748568707, 131052989938, 16);
    form_arithmetic::lemma_constant(0x3fee68e424d8269d, 1021, 8559578381297309, 1044870407873, 13);
}

proof fn lemma_xyz_to_rgb()
    ensures
        rows_are_near(white_balance::xyz_to_rgb_values(), xyz_to_rgb_counts(), 1),
{
    lemma2_to64();
    form_arithmetic::lemma_constant(0x4009ec7340697c9b, 1023, 7296854163815579, 3562917072176, 11);
    form_arithmetic::lemma_constant(0xbff8981e8a2ec28b, 1022, 6922656375816843, -1690101654252, 12);
    form_arithmetic::lemma_constant(0xbfdfe7f03ec1dcaf, 1020, 8980743309089967, -548141071111, 14);
    form_arithmetic::lemma_constant(0xbfef043a2163fdd6, 1021, 8730371992845782, -1065719237408, 13);
    form_arithmetic::lemma_constant(0x3ffe0423e68f15b2, 1022, 8448801539823026, 2062695688433, 12);
    form_arithmetic::lemma_constant(0x3fa546d3f9e7b80b, 1017, 5988850755680267, 45691305204, 17);
    form_arithmetic::lemma_constant(0x3fac7d4aae79fb6f, 1017, 8019059056180079, 61180565309, 17);
    form_arithmetic::lemma_constant(0xbfca1d854c04bb51, 1019, 7350807737711441, -224328849417, 15);
    form_arithmetic::lemma_constant(0x3ff0ea64f8a81cea, 1022, 4761319016766698, 1162431400578, 12);
}

/// The determinant of two rows of two constants.
proof fn lemma_minor(
    a: Wide,
    b: Wide,
    c: Wide,
    d: Wide,
    ra: int,
    rb: int,
    rc: int,
    rd: int,
    first: int,
    second: int,
)
    requires
        form_arithmetic::is_near(a, ra, 1),
        form_arithmetic::is_near(b, rb, 1),
        form_arithmetic::is_near(c, rc, 1),
        form_arithmetic::is_near(d, rd, 1),
        bounds::absolute(ra) <= 0x180_0000_0000,
        bounds::absolute(rb) <= 0x180_0000_0000,
        bounds::absolute(rc) <= 0x180_0000_0000,
        bounds::absolute(rd) <= 0x180_0000_0000,
        bounds::absolute(ra * rb - 0x100_0000_0000 * first) <= 0x100_0000_0000,
        bounds::absolute(rc * rd - 0x100_0000_0000 * second) <= 0x100_0000_0000,
        bounds::absolute(first) <= 0x300_0000_0000,
        bounds::absolute(second) <= 0x300_0000_0000,
    ensures
        form_arithmetic::is_near(white_balance::minor(a, b, c, d), first - second, 17),
{
    form_arithmetic::lemma_near_product(a, b, ra, rb, 1, 1, first, 8);
    form_arithmetic::lemma_near_product(c, d, rc, rd, 1, 1, second, 8);
    form_arithmetic::lemma_near_sum(a.product(b), c.product(d), first, second, 8, 8);
}

/// The determinant is not nothing.
proof fn lemma_determinant()
    ensures
        form_arithmetic::is_near(white_balance::cat16_values().determinant(), 676520355889, 92),
{
    lemma_cat16();
    let (m, n, o) = (
        white_balance::cat16_values().first,
        white_balance::cat16_values().second,
        white_balance::cat16_values().third,
    );
    lemma_minor(
        n.b,
        o.c,
        n.c,
        o.b,
        1324267197656,
        1047974219247,
        50417006180,
        53823293203,
        1262194821300,
        2468013287,
    );
    lemma_minor(
        n.a,
        o.c,
        n.c,
        o.a,
        -275172576060,
        1047974219247,
        50417006180,
        -2285884674,
        -262274411902,
        -104816956,
    );
    lemma_minor(
        n.a,
        o.b,
        n.b,
        o.a,
        -275172576060,
        53823293203,
        1324267197656,
        -2285884674,
        -13470247943,
        -2753151504,
    );
    let first = white_balance::minor(n.b, o.c, n.c, o.b);
    let second = white_balance::minor(n.a, o.c, n.c, o.a);
    let third = white_balance::minor(n.a, o.b, n.b, o.a);
    form_arithmetic::lemma_near_product(
        m.a,
        first,
        441220822087,
        1259726808013,
        1,
        17,
        505513251334,
        30,
    );
    form_arithmetic::lemma_near_product(
        m.b,
        second,
        714872773566,
        -262169594946,
        1,
        17,
        -170455592055,
        30,
    );
    form_arithmetic::lemma_near_product(
        m.c,
        third,
        -56581967877,
        -10717096439,
        1,
        17,
        551512500,
        30,
    );
    form_arithmetic::lemma_near_sum(
        m.a.product(first),
        m.b.product(second),
        505513251334,
        -170455592055,
        30,
        30,
    );
    form_arithmetic::lemma_near_sum(
        m.a.product(first).difference(m.b.product(second)),
        m.c.product(third),
        675968843389,
        551512500,
        61,
        30,
    );
}

/// The responses of the cones can be turned back.
pub proof fn lemma_inverse()
    ensures
        white_balance::cat16_values().inverse() matches Some(inverse) && rows_are_near(
            inverse,
            inverse_counts(),
            0x1c0,
        ),
{
    lemma_cat16();
    lemma_determinant();
    lemma_one();
    form_arithmetic::lemma_parts();
    let (m, n, o) = (
        white_balance::cat16_values().first,
        white_balance::cat16_values().second,
        white_balance::cat16_values().third,
    );
    let determinant = white_balance::cat16_values().determinant();
    let one = white_balance::number(white_balance::ONE);
    let scale = one.quotient(determinant);
    lemma_is_not_nothing(determinant, 676520355889, 92);
    form_arithmetic::lemma_near_quotient(
        one,
        determinant,
        0x100_0000_0000,
        676520355889,
        1,
        92,
        1786976266259,
        275,
    );
    lemma_minor(
        n.b,
        o.c,
        n.c,
        o.b,
        1324267197656,
        1047974219247,
        50417006180,
        53823293203,
        1262194821300,
        2468013287,
    );
    form_arithmetic::lemma_near_product(
        white_balance::minor(n.b, o.c, n.c, o.b),
        scale,
        1259726808013,
        1786976266259,
        17,
        275,
        2047365258376,
        0x1c0,
    );
    lemma_minor(
        m.c,
        o.b,
        m.b,
        o.c,
        -56581967877,
        53823293203,
        714872773566,
        1047974219247,
        -2769800492,
        681364542050,
    );
    form_arithmetic::lemma_near_product(
        white_balance::minor(m.c, o.b, m.b, o.c),
        scale,
        -684134342542,
        1786976266259,
        17,
        275,
        -1111886224913,
        0x1c0,
    );
    lemma_minor(
        m.b,
        n.c,
        m.c,
        n.b,
        714872773566,
        50417006180,
        -56581967877,
        1324267197656,
        32779776159,
        -68148114259,
    );
    form_arithmetic::lemma_near_product(
        white_balance::minor(m.b, n.c, m.c, n.b),
        scale,
        100927890418,
        1786976266259,
        17,
        275,
        164032594312,
        0x1c0,
    );
    lemma_minor(
        n.c,
        o.a,
        n.a,
        o.c,
        50417006180,
        -2285884674,
        -275172576060,
        1047974219247,
        -104816956,
        -262274411902,
    );
    form_arithmetic::lemma_near_product(
        white_balance::minor(n.c, o.a, n.a, o.c),
        scale,
        262169594946,
        1786976266259,
        17,
        275,
        426089940359,
        0x1c0,
    );
    lemma_minor(
        m.a,
        o.c,
        m.c,
        o.a,
        441220822087,
        1047974219247,
        -56581967877,
        -2285884674,
        420539478493,
        117633911,
    );
    form_arithmetic::lemma_near_product(
        white_balance::minor(m.a, o.c, m.c, o.a),
        scale,
        420421844582,
        1786976266259,
        17,
        275,
        683288688456,
        0x1c0,
    );
    lemma_minor(
        m.c,
        n.a,
        m.a,
        n.c,
        -56581967877,
        -275172576060,
        441220822087,
        50417006180,
        14160655937,
        20231739576,
    );
    form_arithmetic::lemma_near_product(
        white_balance::minor(m.c, n.a, m.a, n.c),
        scale,
        -6071083639,
        1786976266259,
        17,
        275,
        -9867001039,
        0x1c0,
    );
    lemma_minor(
        n.a,
        o.b,
        n.b,
        o.a,
        -275172576060,
        53823293203,
        1324267197656,
        -2285884674,
        -13470247943,
        -2753151504,
    );
    form_arithmetic::lemma_near_product(
        white_balance::minor(n.a, o.b, n.b, o.a),
        scale,
        -10717096439,
        1786976266259,
        17,
        275,
        -17417912186,
        0x1c0,
    );
    lemma_minor(
        m.b,
        o.a,
        m.a,
        o.b,
        714872773566,
        -2285884674,
        441220822087,
        53823293203,
        -1486220496,
        21598641683,
    );
    form_arithmetic::lemma_near_product(
        white_balance::minor(m.b, o.a, m.a, o.b),
        scale,
        -23084862179,
        1786976266259,
        17,
        275,
        -37518567136,
        0x1c0,
    );
    lemma_minor(
        m.a,
        n.b,
        m.b,
        n.a,
        441220822087,
        1324267197656,
        714872773566,
        -275172576060,
        531412535213,
        -178909779295,
    );
    form_arithmetic::lemma_near_product(
        white_balance::minor(m.a, n.b, m.b, n.a),
        scale,
        710322314508,
        1786976266259,
        17,
        275,
        1154448107100,
        0x1c0,
    );
}

/// One is a count of parts.
proof fn lemma_one()
    ensures
        form_arithmetic::is_near(
            white_balance::number(white_balance::ONE),
            0x100_0000_0000,
            1,
        ),
{
    lemma2_to64();
    form_arithmetic::lemma_constant(0x3ff0000000000000, 1022, 4503599627370496, 1099511627776, 12);
}

/// A number far from zero is not nothing.
proof fn lemma_is_not_nothing(v: Wide, r: int, e: int)
    requires
        form_arithmetic::is_near(v, r, e),
        0x20_0000_0000 <= r,
        0 <= e <= 0x1000,
    ensures
        !v.size().below(white_balance::number(white_balance::EPSILON)),
{
    let epsilon = white_balance::number(white_balance::EPSILON);
    let u = form_arithmetic::part();
    form_arithmetic::lemma_parts();
    lemma2_to64();
    lemma2_to64_rest();
    rounding::lemma_encode(970, 0x10_0000_0000_0000, 53);
    lemma_pow2_adds(52, 970);
    lemma_pow2_adds(1022, 12);
    lemma_pow2_pos(1022);
    assert(r * u >= 0x20_0000_0000 * u && e * u <= 0x1000 * u) by (nonlinear_arith)
        requires
            r >= 0x20_0000_0000,
            e <= 0x1000,
            u > 0,
    ;
    wide_bounds::order_is_exact(v.size(), epsilon);
}

/// A cone's response to a white, from constants.
proof fn lemma_cone(row: Triple, white: Triple, q: Counts, r: Counts, p: Counts)
    requires
        form_arithmetic::are_near(row, q, 1),
        form_arithmetic::is_near(white.a, r.a, 8),
        form_arithmetic::is_near(white.b, r.b, 1),
        form_arithmetic::is_near(white.c, r.c, 21),
        bounds::absolute(q.a) <= 0x140_0000_0000,
        bounds::absolute(q.b) <= 0x140_0000_0000,
        bounds::absolute(q.c) <= 0x100_0000_0000,
        bounds::absolute(r.a) <= 0x140_0000_0000,
        bounds::absolute(r.b) <= 0x140_0000_0000,
        bounds::absolute(r.c) <= 0x140_0000_0000,
        bounds::absolute(q.a * r.a - 0x100_0000_0000 * p.a) <= 0x100_0000_0000,
        bounds::absolute(q.b * r.b - 0x100_0000_0000 * p.b) <= 0x100_0000_0000,
        bounds::absolute(q.c * r.c - 0x100_0000_0000 * p.c) <= 0x100_0000_0000,
        bounds::absolute(p.a) <= 0x200_0000_0000,
        bounds::absolute(p.b) <= 0x200_0000_0000,
        bounds::absolute(p.c) <= 0x200_0000_0000,
    ensures
        form_arithmetic::is_near(row.dot(white), p.a + p.b + p.c, 60),
{
    form_arithmetic::lemma_near_product(row.a, white.a, q.a, r.a, 1, 8, p.a, 18);
    form_arithmetic::lemma_near_product(row.b, white.b, q.b, r.b, 1, 1, p.b, 10);
    form_arithmetic::lemma_near_product(row.c, white.c, q.c, r.c, 1, 21, p.c, 30);
    let (first, second, third) = (
        row.a.product(white.a),
        row.b.product(white.b),
        row.c.product(white.c),
    );
    form_arithmetic::lemma_near_sum(first, second, p.a, p.b, 18, 10);
    form_arithmetic::lemma_near_sum(first.sum(second), third, p.a + p.b, p.c, 29, 30);
}

/// The reference white, and the responses to it.
pub proof fn lemma_reference()
    ensures
        form_arithmetic::are_near(white_balance::reference_cone(), reference_counts(), 60),
        !white_balance::has_dead_cone(white_balance::reference_cone()),
{
    let x = white_balance::number(white_balance::D65_X);
    let y = white_balance::number(white_balance::D65_Y);
    let one = white_balance::number(white_balance::ONE);
    let cat = white_balance::cat16_values();
    let white = white_balance::tristimulus(Pair { x, y });
    lemma_cat16();
    lemma_one();
    lemma2_to64();
    form_arithmetic::lemma_constant(0x3fd40346dc5d6388, 1020, 5633102413915016, 343817286006, 14);
    form_arithmetic::lemma_constant(0x3fd50e5604189375, 1020, 5926737109619573, 361739325538, 14);
    form_arithmetic::lemma_near_quotient(x, y, 343817286006, 361739325538, 1, 1, 1045037343484, 8);
    form_arithmetic::lemma_near_sum(one, x, 0x100_0000_0000, 343817286006, 1, 1);
    form_arithmetic::lemma_near_sum(one.difference(x), y, 755694341770, 361739325538, 3, 1);
    form_arithmetic::lemma_near_quotient(
        one.difference(x).difference(y),
        y,
        393955016232,
        361739325538,
        5,
        1,
        1197431660281,
        21,
    );
    lemma_cone(
        cat.first,
        white,
        Counts { a: 441220822087, b: 714872773566, c: -56581967877 },
        Counts { a: 1045037343484, b: 1099511627776, c: 1197431660281 },
        Counts { a: 419360945492, b: 714872773566, c: -61621030670 },
    );
    lemma_cone(
        cat.second,
        white,
        Counts { a: -275172576060, b: 1324267197656, c: 50417006180 },
        Counts { a: 1045037343484, b: 1099511627776, c: 1197431660281 },
        Counts { a: -261539405879, b: 1324267197656, c: 54907031350 },
    );
    lemma_cone(
        cat.third,
        white,
        Counts { a: -2285884674, b: 53823293203, c: 1047974219247 },
        Counts { a: 1045037343484, b: 1099511627776, c: 1197431660281 },
        Counts { a: -2172632637, b: 53823293203, c: 1141304446068 },
    );
    let cone = white_balance::reference_cone();
    lemma_is_not_nothing(cone.a, 1072612688388, 60);
    lemma_is_not_nothing(cone.b, 1117634823127, 60);
    lemma_is_not_nothing(cone.c, 1192955106634, 60);
}

/// The matrix of a white balance can always be made.
pub proof fn the_adaptation_is_always_possible()
    ensures
        !white_balance::has_dead_cone(white_balance::reference_cone()),
        white_balance::cat16_values().inverse() is Some,
{
    lemma_reference();
    lemma_inverse();
}

/// The inverse of the responses, times a gain for each cone.
pub open spec fn scaled_inverse_forms() -> FormRows {
    FormRows {
        first: Forms {
            a: Form { a: 2047365258376, b: 0, c: 0 },
            b: Form { a: 0, b: -1111886224913, c: 0 },
            c: Form { a: 0, b: 0, c: 164032594312 },
        },
        second: Forms {
            a: Form { a: 426089940359, b: 0, c: 0 },
            b: Form { a: 0, b: 683288688456, c: 0 },
            c: Form { a: 0, b: 0, c: -9867001039 },
        },
        third: Forms {
            a: Form { a: -17417912186, b: 0, c: 0 },
            b: Form { a: 0, b: -37518567136, c: 0 },
            c: Form { a: 0, b: 0, c: 1154448107100 },
        },
    }
}

/// The adaptation of tristimulus values, by the gains.
pub open spec fn adapted_forms() -> FormRows {
    FormRows {
        first: Forms {
            a: Form { a: 821583109803, b: 278269541736, c: -341023764 },
            b: Form { a: 1331141612134, b: -1339171335692, c: 8029723557 },
            c: Form { a: -105359463561, b: -50984430957, c: 156343894519 },
        },
        second: Forms {
            a: Form { a: 170984779987, b: -171005293482, c: 20513495 },
            b: Form { a: 277032174793, b: 822962462418, c: -483009435 },
            c: Form { a: -21927014421, b: 31331519520, c: -9404505099 },
        },
        third: Forms {
            a: Form { a: -6989599145, b: 9389696760, c: -2400097615 },
            b: Form { a: -11324656220, b: -45187887519, c: 56512543739 },
            c: Form { a: 896343179, b: -1720376377, c: 1100335660976 },
        },
    }
}

/// The adaptation from tristimulus values to linear light, by the gains.
pub open spec fn half_way_forms() -> FormRows {
    FormRows {
        first: Forms {
            a: Form { a: 2402959685226, b: 1159897466894, c: 59920053 },
            b: Form { a: 3893312302942, b: -5582003083473, c: -1410873724 },
            c: Form { a: -308154513369, b: -212515936703, c: -27470621036 },
        },
        second: Forms {
            a: Form { a: -475853740397, b: -590134784831, c: 269287821 },
            b: Form { a: -770985561382, b: 2840021883498, c: -6340633682 },
            c: Form { a: 61023278380, b: 108124252495, c: -123456225672 },
        },
        third: Forms {
            a: Form { a: 3440773635, b: 60300396361, c: -2560604687 },
            b: Form { a: 5574794453, b: -290195476781, c: 60291832911 },
            c: Form { a: -441243326, b: -11048213813, c: 1173920857720 },
        },
    }
}

/// The adaptation of linear light, by the gains.
#[verifier::opaque]
pub open spec fn matrix_forms() -> FormRows {
    FormRows {
        first: Forms {
            a: Form { a: 1813160290641, b: -712842411876, c: -806454437 },
            b: Form { a: 3606822258681, b: -3602560372470, c: -4261841731 },
            c: Form { a: 421743356181, b: -395546839332, c: -26196461787 },
        },
        second: Forms {
            a: Form { a: -359056837926, b: 362681284646, c: -3624301789 },
            b: Form { a: -714252458456, b: 1832917349102, c: -19153221689 },
            c: Form { a: -83517070536, b: 201247054660, c: -117730003041 },
        },
        third: Forms {
            a: Form { a: 2596245856, b: -37059034273, c: 34462769631 },
            b: Form { a: 5164572260, b: -187288811792, c: 182124200784 },
            c: Form { a: 603890041, b: -20563568653, c: 1119471338099 },
        },
    }
}

/// A row of forms times the columns of a constant matrix.
proof fn lemma_row_of_forms(
    v: Triple,
    columns: Matrix,
    f: Forms,
    s: Form,
    e: int,
    q: CountRows,
    h: int,
    to: Forms,
    scale: int,
    g: int,
)
    requires
        form_arithmetic::are_forms(v, f, s, e),
        rows_are_near(columns, q, h),
        s.is_small(),
        f.weight() <= 0x100_0000_0000 * 16,
        q.first.weight() <= 0x100_0000_0000 * scale,
        q.second.weight() <= 0x100_0000_0000 * scale,
        q.third.weight() <= 0x100_0000_0000 * scale,
        0 < scale <= 8,
        0 <= e <= 0x100_0000,
        0 <= h <= 0x200,
        form_arithmetic::is_dot(to.a, f, q.first),
        form_arithmetic::is_dot(to.b, f, q.second),
        form_arithmetic::is_dot(to.c, f, q.third),
        g >= scale * e + 128 * h + 300,
        g <= 0x4000_0000,
    ensures
        form_arithmetic::are_forms(columns.applied_to_row(v), to, s, g),
{
    form_arithmetic::lemma_dot(v, columns.first, f, s, e, q.first, h, to.a, scale, g);
    form_arithmetic::lemma_dot(v, columns.second, f, s, e, q.second, h, to.b, scale, g);
    form_arithmetic::lemma_dot(v, columns.third, f, s, e, q.third, h, to.c, scale, g);
}

/// A row of constants times the columns of a matrix of forms.
proof fn lemma_row_of_constants(
    k: Triple,
    columns: Matrix,
    q: Counts,
    h: int,
    f: FormRows,
    s: Form,
    e: int,
    to: Forms,
    scale: int,
    g: int,
)
    requires
        form_arithmetic::are_near(k, q, h),
        rows_are_forms(columns, f, s, e),
        s.is_small(),
        f.first.weight() <= 0x100_0000_0000 * 16,
        f.second.weight() <= 0x100_0000_0000 * 16,
        f.third.weight() <= 0x100_0000_0000 * 16,
        q.weight() <= 0x100_0000_0000 * scale,
        0 < scale <= 8,
        0 <= e <= 0x100_0000,
        0 <= h <= 0x200,
        form_arithmetic::is_dot(to.a, f.first, q),
        form_arithmetic::is_dot(to.b, f.second, q),
        form_arithmetic::is_dot(to.c, f.third, q),
        g >= scale * e + 128 * h + 300,
        g <= 0x4000_0000,
    ensures
        form_arithmetic::are_forms(columns.applied_to_row(k), to, s, g),
{
    form_arithmetic::lemma_dot(columns.first, k, f.first, s, e, q, h, to.a, scale, g);
    form_arithmetic::lemma_dot(columns.second, k, f.second, s, e, q, h, to.b, scale, g);
    form_arithmetic::lemma_dot(columns.third, k, f.third, s, e, q, h, to.c, scale, g);
}

/// The gains of the cones, as a matrix.
pub open spec fn gains(a: Wide, b: Wide, c: Wide) -> Matrix {
    let zero = white_balance::number(white_balance::ZERO);
    Matrix {
        first: Triple { a, b: zero, c: zero },
        second: Triple { a: zero, b, c: zero },
        third: Triple { a: zero, b: zero, c },
    }
}

/// The gains as they are.
pub open spec fn gain_forms() -> FormRows {
    let none = Form { a: 0, b: 0, c: 0 };
    FormRows {
        first: Forms { a: Form { a: 0x100_0000_0000, b: 0, c: 0 }, b: none, c: none },
        second: Forms { a: none, b: Form { a: 0, b: 0x100_0000_0000, c: 0 }, c: none },
        third: Forms { a: none, b: none, c: Form { a: 0, b: 0, c: 0x100_0000_0000 } },
    }
}

/// The point of the gains.
pub open spec fn gain_point(a: Wide, b: Wide, c: Wide) -> Form {
    Form { a: wide_bounds::exact(a), b: wide_bounds::exact(b), c: wide_bounds::exact(c) }
}

/// A number is the form that picks it out of a point.
proof fn lemma_as_it_is(v: Wide, f: Form, s: Form, part: int)
    requires
        v.finite(),
        wide_bounds::exact(v) == part,
        (f == (Form { a: 0x100_0000_0000, b: 0, c: 0 }) && part == s.a) || (f == (Form {
            a: 0,
            b: 0x100_0000_0000,
            c: 0,
        }) && part == s.b) || (f == (Form { a: 0, b: 0, c: 0x100_0000_0000 }) && part == s.c) || (f
            == (Form { a: 0, b: 0, c: 0 }) && part == 0),
    ensures
        form_arithmetic::is_form(v, f, s, 0),
{
    assert(0 * s.a == 0 && 0 * s.b == 0 && 0 * s.c == 0);
    assert(0 * wide_bounds::one() == 0);
}

proof fn lemma_gains(a: Wide, b: Wide, c: Wide)
    requires
        a.finite(),
        b.finite(),
        c.finite(),
    ensures
        rows_are_forms(gains(a, b, c), gain_forms(), gain_point(a, b, c), 0),
        gains(a, b, c).flipped() == gains(a, b, c),
{
    let s = gain_point(a, b, c);
    let f = gain_forms();
    let zero = white_balance::number(white_balance::ZERO);
    rounding::lemma_zero_magnitude(53);
    lemma_as_it_is(a, f.first.a, s, s.a);
    lemma_as_it_is(b, f.second.b, s, s.b);
    lemma_as_it_is(c, f.third.c, s, s.c);
    lemma_as_it_is(zero, f.first.b, s, 0);
}

proof fn lemma_scaled_inverse(inverse: Matrix, a: Wide, b: Wide, c: Wide)
    requires
        rows_are_near(inverse, inverse_counts(), 0x1c0),
        a.finite(),
        b.finite(),
        c.finite(),
        gain_point(a, b, c).is_small(),
    ensures
        rows_are_forms(
            inverse.product(gains(a, b, c)),
            scaled_inverse_forms(),
            gain_point(a, b, c),
            58000,
        ),
{
    let s = gain_point(a, b, c);
    let columns = gains(a, b, c);
    let q = inverse_counts();
    let to = scaled_inverse_forms();
    lemma_gains(a, b, c);
    lemma_row_of_constants(
        inverse.first,
        columns,
        q.first,
        0x1c0,
        gain_forms(),
        s,
        0,
        to.first,
        4,
        58000,
    );
    lemma_row_of_constants(
        inverse.second,
        columns,
        q.second,
        0x1c0,
        gain_forms(),
        s,
        0,
        to.second,
        4,
        58000,
    );
    lemma_row_of_constants(
        inverse.third,
        columns,
        q.third,
        0x1c0,
        gain_forms(),
        s,
        0,
        to.third,
        4,
        58000,
    );
}

proof fn lemma_adapted(m: Matrix, s: Form)
    requires
        rows_are_forms(m, scaled_inverse_forms(), s, 58000),
        s.is_small(),
    ensures
        rows_are_forms(m.product(white_balance::cat16_values()), adapted_forms(), s, 116500),
{
    let columns = white_balance::cat16_values().flipped();
    let q = cat16_counts().flipped();
    let f = scaled_inverse_forms();
    let to = adapted_forms();
    lemma_cat16();
    lemma_row_of_forms(m.first, columns, f.first, s, 58000, q, 1, to.first, 2, 116500);
    lemma_row_of_forms(m.second, columns, f.second, s, 58000, q, 1, to.second, 2, 116500);
    lemma_row_of_forms(m.third, columns, f.third, s, 58000, q, 1, to.third, 2, 116500);
}

proof fn lemma_half_way(m: Matrix, s: Form)
    requires
        rows_are_forms(m, adapted_forms(), s, 116500),
        s.is_small(),
    ensures
        rows_are_forms(white_balance::xyz_to_rgb_values().product(m), half_way_forms(), s, 700000),
{
    let columns = m.flipped();
    let q = xyz_to_rgb_counts();
    let f = adapted_forms().flipped();
    let to = half_way_forms();
    let k = white_balance::xyz_to_rgb_values();
    lemma_xyz_to_rgb();
    lemma_row_of_constants(k.first, columns, q.first, 1, f, s, 116500, to.first, 6, 700000);
    lemma_row_of_constants(k.second, columns, q.second, 1, f, s, 116500, to.second, 6, 700000);
    lemma_row_of_constants(k.third, columns, q.third, 1, f, s, 116500, to.third, 6, 700000);
}

proof fn lemma_whole_way(m: Matrix, s: Form)
    requires
        rows_are_forms(m, half_way_forms(), s, 700000),
        s.is_small(),
    ensures
        rows_are_forms(m.product(white_balance::rgb_to_xyz_values()), matrix_forms(), s, 1400500),
{
    let columns = white_balance::rgb_to_xyz_values().flipped();
    let q = rgb_to_xyz_counts().flipped();
    let f = half_way_forms();
    let to = matrix_forms();
    reveal(matrix_forms);
    lemma_rgb_to_xyz();
    lemma_row_of_forms(m.first, columns, f.first, s, 700000, q, 1, to.first, 2, 1400500);
    lemma_row_of_forms(m.second, columns, f.second, s, 700000, q, 1, to.second, 2, 1400500);
    lemma_row_of_forms(m.third, columns, f.third, s, 700000, q, 1, to.third, 2, 1400500);
}

/// The chromaticity of a white that a photo may be adapted to: it has some
/// luminance, and is no stronger than one.
pub open spec fn is_in_range(white: Pair) -> bool {
    &&& white.x.finite()
    &&& white.y.finite()
    &&& 0 <= wide_bounds::exact(white.x) <= wide_bounds::one()
    &&& wide_bounds::one() <= 7 * wide_bounds::exact(white.y)
    &&& wide_bounds::exact(white.y) <= wide_bounds::one()
}

/// The tristimulus values of a white in range are small.
proof fn lemma_tristimulus(white: Pair)
    requires
        is_in_range(white),
    ensures
        ({
            let xyz = white_balance::tristimulus(white);
            &&& xyz.a.finite() && xyz.b.finite() && xyz.c.finite()
            &&& gain_point(xyz.a, xyz.b, xyz.c).is_small()
            &&& wide_bounds::exact(xyz.b) == wide_bounds::one()
        }),
{
    let b = wide_bounds::one();
    let one = white_balance::number(white_balance::ONE);
    form_arithmetic::lemma_parts();
    lemma2_to64();
    lemma2_to64_rest();
    rounding::lemma_encode(1022, 0x10_0000_0000_0000, 53);
    lemma_pow2_adds(52, 1022);
    lemma_pow2_pos(1074);
    lemma_pow2_adds(64, 136);
    lemma_pow2_pos(136);
    let x = wide_bounds::exact(white.x);
    let y = wide_bounds::exact(white.y);
    assert(y * pow2(200) >= b) by (nonlinear_arith)
        requires
            7 * y >= b,
            pow2(200) == 0x1_0000_0000_0000_0000 * pow2(136),
            pow2(136) >= 1,
            b > 0,
    {
        assert(pow2(200) >= 7);
        assert(y * pow2(200) >= y * 7);
    }
    wide_bounds::a_difference_is_close(one, white.x);
    wide_bounds::a_difference_is_close(one.difference(white.x), white.y);
    let rest = one.difference(white.x).difference(white.y);
    wide_bounds::a_quotient_is_close(white.x, white.y);
    wide_bounds::a_quotient_is_close(rest, white.y);
    lemma_share(x, y, wide_bounds::exact(white.x.quotient(white.y)), b);
    lemma_share(wide_bounds::exact(rest), y, wide_bounds::exact(rest.quotient(white.y)), b);
}

/// A quotient by at least a seventh is at most eight times as large.
proof fn lemma_share(x: int, y: int, p: int, b: int)
    requires
        b >= 0x1_0000_0000,
        0x1_0000 * bounds::absolute(x) <= 0x1_0001 * b,
        b <= 7 * y,
        (p * y - x * b) * 0x10_0000_0000_0000 <= bounds::absolute(x * b) + y
            * 0x10_0000_0000_0000,
        (x * b - p * y) * 0x10_0000_0000_0000 <= bounds::absolute(x * b) + y
            * 0x10_0000_0000_0000,
    ensures
        -8 * b <= p <= 8 * b,
{
    let xb = x * b;
    let py = p * y;
    let ax = bounds::absolute(x);
    assert(bounds::absolute(xb) == ax * b) by (nonlinear_arith)
        requires
            xb == x * b,
            ax == bounds::absolute(x),
            b > 0,
    ;
    let yb = y * b;
    assert(0x1_0000 * (ax * b) <= 7 * 0x1_0001 * yb) by (nonlinear_arith)
        requires
            0x1_0000 * ax <= 0x1_0001 * b,
            b <= 7 * y,
            yb == y * b,
            b > 0,
    {
        assert(0x1_0000 * ax <= 7 * 0x1_0001 * y);
        assert(0x1_0000 * ax * b <= 7 * 0x1_0001 * y * b);
    }
    assert(y * 0x1_0000_0000 <= yb) by (nonlinear_arith)
        requires
            yb == y * b,
            b >= 0x1_0000_0000,
            y > 0,
    ;
    let size = ax * b;
    assert(-size <= xb <= size);
    assert(0x1_0000 * size <= 458759 * yb);
    assert((py - xb) * 0x10_0000_0000_0000 <= size + y * 0x10_0000_0000_0000);
    assert((xb - py) * 0x10_0000_0000_0000 <= size + y * 0x10_0000_0000_0000);
    assert(-8 * yb <= py <= 8 * yb);
    assert(-8 * b <= p <= 8 * b) by (nonlinear_arith)
        requires
            -8 * yb <= py <= 8 * yb,
            py == p * y,
            yb == y * b,
            y > 0,
    ;
}

/// The response of a cone to a white, as a form in its tristimulus values.
proof fn lemma_response(white: Pair)
    requires
        is_in_range(white),
    ensures
        ({
            let xyz = white_balance::tristimulus(white);
            let s = gain_point(xyz.a, xyz.b, xyz.c);
            let cone = white_balance::cat16_values().applied(xyz);
            &&& form_arithmetic::is_form(
                cone.a,
                (Form { a: 441220822087, b: 714872773566, c: -56581967877 }),
                s,
                428,
            )
            &&& form_arithmetic::is_form(
                cone.b,
                (Form { a: -275172576060, b: 1324267197656, c: 50417006180 }),
                s,
                428,
            )
            &&& form_arithmetic::is_form(
                cone.c,
                (Form { a: -2285884674, b: 53823293203, c: 1047974219247 }),
                s,
                428,
            )
        }),
{
    let xyz = white_balance::tristimulus(white);
    let s = gain_point(xyz.a, xyz.b, xyz.c);
    let cat = white_balance::cat16_values();
    let q = cat16_counts();
    lemma_tristimulus(white);
    lemma_cat16();
    let f = Forms {
        a: Form { a: 0x100_0000_0000, b: 0, c: 0 },
        b: Form { a: 0, b: 0x100_0000_0000, c: 0 },
        c: Form { a: 0, b: 0, c: 0x100_0000_0000 },
    };
    lemma_as_it_is(xyz.a, f.a, s, s.a);
    lemma_as_it_is(xyz.b, f.b, s, s.b);
    lemma_as_it_is(xyz.c, f.c, s, s.c);
    form_arithmetic::lemma_dot(
        xyz,
        cat.first,
        f,
        s,
        0,
        q.first,
        1,
        Form { a: 441220822087, b: 714872773566, c: -56581967877 },
        2,
        428,
    );
    form_arithmetic::lemma_dot(
        xyz,
        cat.second,
        f,
        s,
        0,
        q.second,
        1,
        Form { a: -275172576060, b: 1324267197656, c: 50417006180 },
        2,
        428,
    );
    form_arithmetic::lemma_dot(
        xyz,
        cat.third,
        f,
        s,
        0,
        q.third,
        1,
        Form { a: -2285884674, b: 53823293203, c: 1047974219247 },
        2,
        428,
    );
}

/// How far a form reaches from zero, where the point in the middle is one and
/// the others are at most eight.
pub open spec fn reach(f: Form) -> int {
    8 * bounds::absolute(f.a) + bounds::absolute(f.b) + 8 * bounds::absolute(f.c)
}

proof fn lemma_reach(f: Form, s: Form)
    requires
        s.is_small(),
        s.b == wide_bounds::one(),
    ensures
        -(wide_bounds::one() * reach(f)) <= f.at(s) <= wide_bounds::one() * reach(f),
{
    let b = wide_bounds::one();
    let (wa, wb, wc) = (
        bounds::absolute(f.a),
        bounds::absolute(f.b),
        bounds::absolute(f.c),
    );
    form_arithmetic::lemma_parts();
    form_arithmetic::lemma_term_size(f.a, s.a, 8 * b);
    form_arithmetic::lemma_term_size(f.b, s.b, b);
    form_arithmetic::lemma_term_size(f.c, s.c, 8 * b);
    assert(wa * (8 * b) + wb * b + wc * (8 * b) == b * (8 * wa + wb + 8 * wc)) by (nonlinear_arith);
}

/// The gain of a cone: its response, over that to the reference white.
proof fn lemma_gain(t: Wide, r: Wide, f: Form, s: Form, rr: int)
    requires
        form_arithmetic::is_form(t, f, s, 428),
        s.is_small(),
        s.b == wide_bounds::one(),
        form_arithmetic::is_near(r, rr, 60),
        0xc0_0000_0000 <= rr <= 0x140_0000_0000,
        reach(f) + 0x1000_0000 <= 7 * rr + rr / 2,
    ensures
        t.quotient(r).finite(),
        ({
            let gain = wide_bounds::exact(t.quotient(r));
            let b = wide_bounds::one();
            &&& -8 * b <= gain <= 8 * b
            &&& -1000 * b <= gain * rr - f.at(s) <= 1000 * b
        }),
{
    let b = wide_bounds::one();
    let u = form_arithmetic::part();
    let n: int = 0x100_0000_0000;
    form_arithmetic::lemma_parts();
    let x = wide_bounds::exact(t);
    let y = wide_bounds::exact(r);
    let w = reach(f);
    lemma_reach(f, s);
    assert(b * w == n * (w * u)) by (nonlinear_arith)
        requires
            b == n * u,
    ;
    assert(-(w * u + 428 * u) <= x <= w * u + 428 * u);
    assert(w * u <= 0x1000_0000_0000 * u) by (nonlinear_arith)
        requires
            w <= 0x1000_0000_0000,
            u > 0,
    ;
    assert(0xc0_0000_0000 * u <= rr * u <= 0x140_0000_0000 * u) by (nonlinear_arith)
        requires
            0xc0_0000_0000 <= rr <= 0x140_0000_0000,
            u > 0,
    ;
    lemma2_to64();
    lemma_pow2_adds(64, 136);
    lemma_pow2_pos(136);
    assert(y * pow2(200) >= b) by (nonlinear_arith)
        requires
            y >= 0xb0_0000_0000 * u,
            pow2(200) == 0x1_0000_0000_0000_0000 * pow2(136),
            pow2(136) >= 1,
            b == 0x100_0000_0000 * u,
            u > 0,
    {
        assert(pow2(200) >= 2);
        assert(y * pow2(200) >= y * 2);
    }
    wide_bounds::a_quotient_is_close(t, r);
    let p = wide_bounds::exact(t.quotient(r));
    lemma_gain_values(x, y, p, f.at(s), w, rr, b, u);
}

proof fn lemma_gain_values(x: int, y: int, p: int, phi: int, w: int, rr: int, b: int, u: int)
    requires
        u >= 0x1000_0000_0000_0000,
        b == 0x100_0000_0000 * u,
        0xc0_0000_0000 <= rr <= 0x140_0000_0000,
        0 <= w,
        w + 0x1000_0000 <= 7 * rr + rr / 2,
        -428 * b <= x * 0x100_0000_0000 - phi <= 428 * b,
        bounds::absolute(x) <= w * u + 428 * u,
        -60 * u <= y - rr * u <= 60 * u,
        (p * y - x * b) * 0x10_0000_0000_0000 <= bounds::absolute(x * b) + y
            * 0x10_0000_0000_0000,
        (x * b - p * y) * 0x10_0000_0000_0000 <= bounds::absolute(x * b) + y
            * 0x10_0000_0000_0000,
    ensures
        -8 * b <= p <= 8 * b,
        -1000 * b <= p * rr - phi <= 1000 * b,
{
    let n: int = 0x100_0000_0000;
    let xb = x * b;
    let py = p * y;
    let ax = bounds::absolute(x);
    assert(bounds::absolute(xb) == ax * b) by (nonlinear_arith)
        requires
            xb == x * b,
            ax == bounds::absolute(x),
            b > 0,
    ;
    assert(0xb0_0000_0000 * u <= rr * u - 60 * u && rr * u <= 0x140_0000_0000 * u)
        by (nonlinear_arith)
        requires
            0xc0_0000_0000 <= rr <= 0x140_0000_0000,
            u > 0,
    ;
    // The size of the gain.
    assert(10 * ax <= 76 * y) by {
        assert(10 * (w * u + 428 * u) <= 76 * (rr * u - 60 * u)) by (nonlinear_arith)
            requires
                w + 0x1000_0000 <= 7 * rr + rr / 2,
                rr >= 0,
                u > 0,
        {
            assert(10 * (w + 428) <= 76 * (rr - 60));
            assert(10 * (w + 428) * u <= 76 * (rr - 60) * u);
        }
    }
    let yb = y * b;
    assert(10 * (ax * b) <= 76 * yb) by (nonlinear_arith)
        requires
            10 * ax <= 76 * y,
            yb == y * b,
            b > 0,
    ;
    assert(0x1_0000_0000 * y <= yb) by (nonlinear_arith)
        requires
            yb == y * b,
            b >= 0x1_0000_0000,
            y > 0,
    ;
    assert(-8 * b <= p <= 8 * b) by (nonlinear_arith)
        requires
            -8 * yb <= py <= 8 * yb,
            py == p * y,
            yb == y * b,
            y > 0,
    ;
    // What it is off.
    let off = p * rr - x * n;
    let ub = u * b;
    assert(off * u == py - xb - p * (y - rr * u)) by (nonlinear_arith)
        requires
            off == p * rr - x * n,
            py == p * y,
            xb == x * b,
            b == n * u,
    ;
    assert(-480 * ub <= p * (y - rr * u) <= 480 * ub) by (nonlinear_arith)
        requires
            -8 * b <= p <= 8 * b,
            -60 * u <= y - rr * u <= 60 * u,
            ub == u * b,
    {
        let d = y - rr * u;
        assert(p * d <= (8 * b) * (60 * u) && p * d >= -((8 * b) * (60 * u)));
        assert((8 * b) * (60 * u) == 480 * ub);
    }
    assert(yb <= 0x150_0000_0000 * ub) by (nonlinear_arith)
        requires
            yb == y * b,
            y <= 0x150_0000_0000 * u,
            ub == u * b,
            b > 0,
    ;
    assert(0x1000_0000_0000_0000 * u <= ub) by (nonlinear_arith)
        requires
            ub == u * b,
            b >= 0x1000_0000_0000_0000,
            u > 0,
    ;
    assert(-500 * ub <= off * u <= 500 * ub);
    assert(-500 * b <= off <= 500 * b) by (nonlinear_arith)
        requires
            -500 * ub <= off * u <= 500 * ub,
            ub == u * b,
            u > 0,
    ;
}

/// A number of limited size, narrowed, is close to what it was.
pub proof fn lemma_narrowed(v: Wide)
    requires
        v.finite(),
        bounds::absolute(wide_bounds::exact(v)) <= 256 * wide_bounds::one(),
    ensures
        ({
            let narrow = laws::exact(v.narrowed()) * pow2(925);
            let exact = wide_bounds::exact(v);
            &&& v.narrowed().finite()
            &&& (narrow - exact) * 0x80_0000 <= bounds::absolute(exact) + pow2(925) * 0x80_0000
            &&& (exact - narrow) * 0x80_0000 <= bounds::absolute(exact) + pow2(925) * 0x80_0000
        }),
{
    let size = v.value().size(Format::Double);
    let p = pow2(925);
    lemma2_to64();
    lemma_pow2_pos(925);
    lemma_pow2_adds(1074, 8);
    lemma_pow2_adds(925, 157);
    bounds::lemma_rounded_close(size, p);
    bounds::lemma_rounded_below(size, p, 157);
    let found = rounding::magnitude(rounding::nearest(size, p, 24), 24) as int;
    assert(laws::exact(v.narrowed()) == if v.value().negative {
        -found
    } else {
        found
    });
    assert(-found * p == -(found * p)) by (nonlinear_arith);
}

/// One number of the matrix, narrowed, and the form that it nearly is.
proof fn lemma_narrowed_form(v: Wide, f: Form, s: Form)
    requires
        form_arithmetic::is_form(v, f, s, 1400500),
        s.is_small(),
        f.weight() <= 0x1000_0000_0000,
    ensures
        v.narrowed().finite(),
        ({
            let narrow = laws::exact(v.narrowed()) * pow2(925) * 0x100_0000_0000;
            -18300000 * wide_bounds::one() <= narrow - f.at(s) <= 18300000 * wide_bounds::one()
        }),
{
    let b = wide_bounds::one();
    let x = wide_bounds::exact(v);
    let w = f.weight();
    form_arithmetic::lemma_parts();
    form_arithmetic::lemma_form_size(f, s);
    assert(b * w <= 0x1000_0000_0000 * b) by (nonlinear_arith)
        requires
            w <= 0x1000_0000_0000,
            b > 0,
    ;
    lemma_narrowed(v);
    lemma2_to64();
    lemma2_to64_rest();
    lemma_pow2_adds(925, 149);
    lemma_pow2_adds(62, 87);
    lemma_pow2_pos(87);
    lemma_pow2_pos(925);
    assert(pow2(149) >= 0x4000_0000_0000_0000) by (nonlinear_arith)
        requires
            pow2(149) == 0x4000_0000_0000_0000 * pow2(87),
            pow2(87) >= 1,
    ;
    assert(0x4000_0000_0000_0000 * pow2(925) <= b) by (nonlinear_arith)
        requires
            b == pow2(925) * pow2(149),
            pow2(149) >= 0x4000_0000_0000_0000,
            pow2(925) > 0,
    ;
}

/// The luminance of a neutral color of full strength behind a matrix.
pub open spec fn luminance_of_white(m: NarrowMatrix) -> int {
    let weights = white_balance::rgb_to_xyz_values().second;
    wide_bounds::exact(weights.a) * row_sum(m.first) + wide_bounds::exact(weights.b) * row_sum(
        m.second,
    ) + wide_bounds::exact(weights.c) * row_sum(m.third)
}

/// The sum of a row.
pub open spec fn row_sum(row: NarrowTriple) -> int {
    laws::exact(row.a) + laws::exact(row.b) + laws::exact(row.c)
}

/// A row of the matrix, narrowed and added up.
#[verifier::rlimit(40)]
proof fn lemma_row_sum(row: Triple, f: Forms, s: Form)
    requires
        form_arithmetic::are_forms(row, f, s, 1400500),
        s.is_small(),
        f.weight() <= 0x1000_0000_0000,
    ensures
        ({
            let sum = row_sum(row.narrowed()) * pow2(925) * 0x100_0000_0000;
            let all = f.a.plus(f.b).plus(f.c);
            &&& -54900000 * wide_bounds::one() <= sum - all.at(s) <= 54900000 * wide_bounds::one()
            &&& -200 * wide_bounds::one() <= row_sum(row.narrowed()) * pow2(925) <= 200
                * wide_bounds::one()
        }),
{
    lemma_narrowed_form(row.a, f.a, s);
    lemma_narrowed_form(row.b, f.b, s);
    lemma_narrowed_form(row.c, f.c, s);
    let (x, y, z) = (
        laws::exact(row.a.narrowed()),
        laws::exact(row.b.narrowed()),
        laws::exact(row.c.narrowed()),
    );
    let all = f.a.plus(f.b).plus(f.c);
    form_arithmetic::lemma_parts();
    lemma_all_forms(f, s);
    lemma_three_added(
        x,
        y,
        z,
        pow2(925) as int,
        wide_bounds::one(),
        f.a.at(s),
        f.b.at(s),
        f.c.at(s),
        all.weight(),
    );
}

/// Three forms together.
proof fn lemma_all_forms(f: Forms, s: Form)
    requires
        s.is_small(),
    ensures
        ({
            let all = f.a.plus(f.b).plus(f.c);
            let b = wide_bounds::one();
            &&& all.at(s) == f.a.at(s) + f.b.at(s) + f.c.at(s)
            &&& 0 <= all.weight() <= f.weight()
            &&& -8 * (b * all.weight()) <= all.at(s) <= 8 * (b * all.weight())
        }),
{
    form_arithmetic::lemma_plus_at(f.a, f.b, s);
    form_arithmetic::lemma_plus_at(f.a.plus(f.b), f.c, s);
    form_arithmetic::lemma_form_size(f.a.plus(f.b).plus(f.c), s);
}

proof fn lemma_three_added(
    x: int,
    y: int,
    z: int,
    p: int,
    b: int,
    first: int,
    second: int,
    third: int,
    w: int,
)
    requires
        b > 0,
        -18300000 * b <= x * p * 0x100_0000_0000 - first <= 18300000 * b,
        -18300000 * b <= y * p * 0x100_0000_0000 - second <= 18300000 * b,
        -18300000 * b <= z * p * 0x100_0000_0000 - third <= 18300000 * b,
        0 <= w <= 0x1000_0000_0000,
        -8 * (b * w) <= first + second + third <= 8 * (b * w),
    ensures
        -54900000 * b <= (x + y + z) * p * 0x100_0000_0000 - (first + second + third) <= 54900000
            * b,
        -200 * b <= (x + y + z) * p <= 200 * b,
{
    assert((x + y + z) * p == x * p + y * p + z * p) by (nonlinear_arith);
    assert(b * w <= 0x1000_0000_0000 * b) by (nonlinear_arith)
        requires
            w <= 0x1000_0000_0000,
            b > 0,
    ;
}

/// Whether gains are those of a white with some tristimulus values.
#[verifier::opaque]
pub open spec fn gains_agree(s: Form, x: int, z: int, whole: int) -> bool {
    &&& -1000 * whole
        <= s.a * 1072612688388 - (441220822087 * x + 714872773566 * whole + -56581967877 * z)
        <= 1000 * whole
    &&& -1000 * whole
        <= s.b * 1117634823127 - (-275172576060 * x + 1324267197656 * whole + 50417006180 * z)
        <= 1000 * whole
    &&& -1000 * whole
        <= s.c * 1192955106634 - (-2285884674 * x + 53823293203 * whole + 1047974219247 * z)
        <= 1000 * whole
}

/// Whether sums of rows are those of the matrix with some gains.
#[verifier::opaque]
pub open spec fn rows_agree(a: int, b: int, c: int, s: Form, whole: int) -> bool {
    &&& -54900000 * whole
        <= a * 0x100_0000_0000 - (5841725905503 * s.a + -4710949623678 * s.b + -31264757955 * s.c)
        <= 54900000 * whole
    &&& -54900000 * whole
        <= b * 0x100_0000_0000 - (-1156826366918 * s.a + 2396845688408 * s.b + -140507526519 * s.c)
        <= 54900000 * whole
    &&& -54900000 * whole
        <= c * 0x100_0000_0000 - (8364708157 * s.a + -244911414718 * s.b + 1336058308514 * s.c)
        <= 54900000 * whole
}

/// The luminance from the sums of the rows, all in parts.
proof fn lemma_luminance_values(
    a: int,
    b: int,
    c: int,
    s: Form,
    x: int,
    z: int,
    whole: int,
)
    requires
        whole > 0,
        s.is_small(),
        whole == wide_bounds::one(),
        -8 * whole <= x <= 8 * whole,
        -8 * whole <= z <= 8 * whole,
        rows_agree(a, b, c, s, whole),
        gains_agree(s, x, z, whole),
    ensures
        -114000000 * whole
            <= 233836326463 * a + 786318159530 * b + 79357251735 * c - 0x100_0000_0000 * whole
            <= 114000000 * whole,
{
    reveal(rows_agree);
    reveal(gains_agree);
    let total = 233836326463 * a + 786318159530 * b + 79357251735 * c;
    let gains = 457037946466730414699744 * s.a + 763656639442727302901596 * s.b
        + -11768540279101012067445 * s.c;
    assert(-60363194401267200000 * whole <= total * 0x100_0000_0000 - gains
        <= 60363194401267200000 * whole);
    let white = 6087768919708457649 * x + 1208919019191967274146935 * whole
        + 1138858533978540248 * z;
    let first = s.a * 1072612688388 - (441220822087 * x + 714872773566 * whole + -56581967877 * z);
    let second = s.b * 1117634823127
        - (-275172576060 * x + 1324267197656 * whole + 50417006180 * z);
    let third = s.c * 1192955106634 - (-2285884674 * x + 53823293203 * whole + 1047974219247 * z);
    assert(gains - white == 426097837005 * first + 683279210383 * second + -9865031981 * third
        + 485534501804 * s.a + -33124026045 * s.b + -259336805491 * s.c);
}

/// The gains of the cones for a white in range.
proof fn lemma_gains_of_white(white: Pair)
    requires
        is_in_range(white),
    ensures
        ({
            let source = white_balance::reference_cone();
            let target = white_balance::cat16_values().applied(white_balance::tristimulus(white));
            let (a, b, c) = (
                target.a.quotient(source.a),
                target.b.quotient(source.b),
                target.c.quotient(source.c),
            );
            let s = gain_point(a, b, c);
            let xyz = white_balance::tristimulus(white);
            let x = wide_bounds::exact(xyz.a);
            let z = wide_bounds::exact(xyz.c);
            let whole = wide_bounds::one();
            &&& a.finite() && b.finite() && c.finite()
            &&& s.is_small()
            &&& -8 * whole <= x <= 8 * whole
            &&& -8 * whole <= z <= 8 * whole
            &&& gains_agree(s, x, z, whole)
        }),
{
    let source = white_balance::reference_cone();
    let xyz = white_balance::tristimulus(white);
    let target = white_balance::cat16_values().applied(xyz);
    let (a, b, c) = (
        target.a.quotient(source.a),
        target.b.quotient(source.b),
        target.c.quotient(source.c),
    );
    let point = gain_point(xyz.a, xyz.b, xyz.c);
    lemma_tristimulus(white);
    lemma_response(white);
    lemma_reference();
    lemma_gain(
        target.a,
        source.a,
        Form { a: 441220822087, b: 714872773566, c: -56581967877 },
        point,
        1072612688388,
    );
    lemma_gain(
        target.b,
        source.b,
        Form { a: -275172576060, b: 1324267197656, c: 50417006180 },
        point,
        1117634823127,
    );
    lemma_gain(
        target.c,
        source.c,
        Form { a: -2285884674, b: 53823293203, c: 1047974219247 },
        point,
        1192955106634,
    );
    reveal(gains_agree);
}

/// The adaptation to a white in range.
#[verifier::rlimit(40)]
pub proof fn lemma_adaptation(white: Pair, inverse: Matrix)
    requires
        is_in_range(white),
        rows_are_near(inverse, inverse_counts(), 0x1c0),
    ensures
        ({
            let source = white_balance::reference_cone();
            let target = white_balance::cat16_values().applied(white_balance::tristimulus(white));
            let (a, b, c) = (
                target.a.quotient(source.a),
                target.b.quotient(source.b),
                target.c.quotient(source.c),
            );
            let s = gain_point(a, b, c);
            let xyz = white_balance::tristimulus(white);
            let x = wide_bounds::exact(xyz.a);
            let z = wide_bounds::exact(xyz.c);
            let whole = wide_bounds::one();
            &&& s.is_small()
            &&& -8 * whole <= x <= 8 * whole
            &&& -8 * whole <= z <= 8 * whole
            &&& gains_agree(s, x, z, whole)
            &&& rows_are_forms(
                white_balance::adaptation_to(white, inverse),
                matrix_forms(),
                s,
                1400500,
            )
        }),
{
    let source = white_balance::reference_cone();
    let xyz = white_balance::tristimulus(white);
    let target = white_balance::cat16_values().applied(xyz);
    let (a, b, c) = (
        target.a.quotient(source.a),
        target.b.quotient(source.b),
        target.c.quotient(source.c),
    );
    lemma_gains_of_white(white);
    let s = gain_point(a, b, c);
    let scaled = inverse.product(gains(a, b, c));
    lemma_scaled_inverse(inverse, a, b, c);
    lemma_adapted(scaled, s);
    let adapted = scaled.product(white_balance::cat16_values());
    lemma_half_way(adapted, s);
    lemma_whole_way(white_balance::xyz_to_rgb_values().product(adapted), s);
}

/// The sums of the rows, weighted in parts.
#[verifier::rlimit(40)]
proof fn lemma_total(white: Pair, inverse: Matrix)
    requires
        is_in_range(white),
        rows_are_near(inverse, inverse_counts(), 0x1c0),
    ensures
        ({
            let m = white_balance::adaptation_to(white, inverse).narrowed();
            let p = pow2(925) as int;
            let b = wide_bounds::one();
            let (first, second, third) = (
                row_sum(m.first) * p,
                row_sum(m.second) * p,
                row_sum(m.third) * p,
            );
            let total = 233836326463 * first + 786318159530 * second + 79357251735 * third;
            &&& -200 * b <= first <= 200 * b
            &&& -200 * b <= second <= 200 * b
            &&& -200 * b <= third <= 200 * b
            &&& -114000000 * b <= total - 0x100_0000_0000 * b <= 114000000 * b
        }),
{
    lemma_adaptation(white, inverse);
    let m = white_balance::adaptation_to(white, inverse);
    let source = white_balance::reference_cone();
    let xyz = white_balance::tristimulus(white);
    let target = white_balance::cat16_values().applied(xyz);
    let s = gain_point(
        target.a.quotient(source.a),
        target.b.quotient(source.b),
        target.c.quotient(source.c),
    );
    let p = pow2(925) as int;
    form_arithmetic::lemma_parts();
    lemma_rows(m, s);
    lemma_luminance_values(
        row_sum(m.first.narrowed()) * p,
        row_sum(m.second.narrowed()) * p,
        row_sum(m.third.narrowed()) * p,
        s,
        wide_bounds::exact(xyz.a),
        wide_bounds::exact(xyz.c),
        wide_bounds::one(),
    );
}

/// The sums of the rows of the matrix.
pub proof fn lemma_rows(m: Matrix, s: Form)
    requires
        rows_are_forms(m, matrix_forms(), s, 1400500),
        s.is_small(),
    ensures
        ({
            let p = pow2(925) as int;
            let whole = wide_bounds::one();
            let (a, b, c) = (
                row_sum(m.first.narrowed()) * p,
                row_sum(m.second.narrowed()) * p,
                row_sum(m.third.narrowed()) * p,
            );
            &&& -200 * whole <= a <= 200 * whole
            &&& -200 * whole <= b <= 200 * whole
            &&& -200 * whole <= c <= 200 * whole
            &&& rows_agree(a, b, c, s, whole)
        }),
{
    let f = matrix_forms();
    reveal(matrix_forms);
    reveal(rows_agree);
    lemma_row_sum(m.first, f.first, s);
    lemma_row_sum(m.second, f.second, s);
    lemma_row_sum(m.third, f.third, s);
}

/// Adapting to a white in range keeps the luminance of a neutral color, but
/// for one part in 9600.
pub proof fn the_adaptation_keeps_the_luminance_of_white(white: Pair, inverse: Matrix)
    requires
        is_in_range(white),
        white_balance::cat16_values().inverse() == Some(inverse),
    ensures
        ({
            let luminance = luminance_of_white(
                white_balance::adaptation_to(white, inverse).narrowed(),
            );
            let one = wide_bounds::one() * laws::exact(Scalar { bits: constants::ONE });
            9600 * bounds::absolute(luminance - one) <= one
        }),
{
    lemma_inverse();
    lemma_total(white, inverse);
    let m = white_balance::adaptation_to(white, inverse);
    let p = pow2(925) as int;
    let (ra, rb, rc) = (
        row_sum(m.first.narrowed()),
        row_sum(m.second.narrowed()),
        row_sum(m.third.narrowed()),
    );
    lemma_rgb_to_xyz();
    curve_laws::lemma_constants();
    lemma_pow2_adds(925, 149);
    lemma_pow2_pos(925);
    let weights = white_balance::rgb_to_xyz_values().second;
    let b = wide_bounds::one();
    let u = form_arithmetic::part();
    form_arithmetic::lemma_parts();
    lemma_weighted(wide_bounds::exact(weights.a), 233836326463, ra, ra * p, p, b, u);
    lemma_weighted(wide_bounds::exact(weights.b), 786318159530, rb, rb * p, p, b, u);
    lemma_weighted(wide_bounds::exact(weights.c), 79357251735, rc, rc * p, p, b, u);
    let total = 233836326463 * (ra * p) + 786318159530 * (rb * p) + 79357251735 * (rc * p);
    let luminance = luminance_of_white(m.narrowed());
    lemma_luminance(
        luminance,
        wide_bounds::exact(weights.a) * ra,
        wide_bounds::exact(weights.b) * rb,
        wide_bounds::exact(weights.c) * rc,
        ra * p,
        rb * p,
        rc * p,
        total,
        p,
        b,
        u,
    );
    lemma_conclusion(luminance, laws::exact(Scalar { bits: constants::ONE }), p, b);
}

proof fn lemma_conclusion(luminance: int, one: int, p: int, b: int)
    requires
        p > 0,
        b == p * one,
        -(b * b) <= 9600 * (luminance * p - b * b) <= b * b,
    ensures
        9600 * bounds::absolute(luminance - b * one) <= b * one,
{
    let gap = luminance - b * one;
    assert(b * one * p == b * b) by (nonlinear_arith)
        requires
            b == p * one,
    ;
    assert(gap * p == luminance * p - b * b) by (nonlinear_arith)
        requires
            gap == luminance - b * one,
            b * one * p == b * b,
    ;
    let bo = b * one;
    assert(-bo <= 9600 * gap <= bo) by (nonlinear_arith)
        requires
            -(bo * p) <= 9600 * (gap * p) <= bo * p,
            p > 0,
    ;
}

/// A sum of a row with its weight.
proof fn lemma_weighted(y: int, q: int, r: int, rp: int, p: int, b: int, u: int)
    requires
        -u <= y - q * u <= u,
        rp == r * p,
        -200 * b <= rp <= 200 * b,
        u > 0,
    ensures
        -200 * (u * b) <= y * r * p - q * (rp * u) <= 200 * (u * b),
{
    let d = y - q * u;
    assert(y * r * p - q * (rp * u) == d * rp) by (nonlinear_arith)
        requires
            d == y - q * u,
            rp == r * p,
    ;
    assert(-200 * (u * b) <= d * rp <= 200 * (u * b)) by (nonlinear_arith)
        requires
            -u <= d <= u,
            -200 * b <= rp <= 200 * b,
    {
        let top = 200 * b;
        assert(d * rp <= u * top && d * rp >= -(u * top));
        assert(u * top == 200 * (u * b));
    }
}

proof fn lemma_luminance(
    luminance: int,
    first: int,
    second: int,
    third: int,
    a: int,
    c: int,
    d: int,
    total: int,
    p: int,
    b: int,
    u: int,
)
    requires
        u > 0,
        b == 0x100_0000_0000 * u,
        luminance == first + second + third,
        -200 * (u * b) <= first * p - 233836326463 * (a * u) <= 200 * (u * b),
        -200 * (u * b) <= second * p - 786318159530 * (c * u) <= 200 * (u * b),
        -200 * (u * b) <= third * p - 79357251735 * (d * u) <= 200 * (u * b),
        total == 233836326463 * a + 786318159530 * c + 79357251735 * d,
        -114000000 * b <= total - 0x100_0000_0000 * b <= 114000000 * b,
    ensures
        -(b * b) <= 9600 * (luminance * p - b * b) <= b * b,
{
    let ub = u * b;
    assert(luminance * p == first * p + second * p + third * p) by (nonlinear_arith)
        requires
            luminance == first + second + third,
    ;
    assert(total * u == 233836326463 * (a * u) + 786318159530 * (c * u) + 79357251735 * (d
        * u)) by (nonlinear_arith)
        requires
            total == 233836326463 * a + 786318159530 * c + 79357251735 * d,
    ;
    assert(b * b == 0x100_0000_0000 * ub) by (nonlinear_arith)
        requires
            b == 0x100_0000_0000 * u,
            ub == u * b,
    ;
    assert(-114000000 * ub <= total * u - 0x100_0000_0000 * ub <= 114000000 * ub)
        by (nonlinear_arith)
        requires
            -114000000 * b <= total - 0x100_0000_0000 * b <= 114000000 * b,
            ub == u * b,
            u > 0,
    ;
}

} // verus!
