//! What a white balance makes of a neutral color: warm ones make it red, cool
//! ones blue, and a tint takes green away or adds it.

use vstd::arithmetic::power2::*;
use vstd::prelude::*;

use crate::document::values::WhiteBalance;
use crate::number::bounds;
use crate::number::constants;
use crate::number::laws;
use crate::number::rounding;
use crate::number::scalar::Scalar;
use crate::number::wide::Wide;
use crate::number::wide_bounds;
use crate::render::adaptation_laws;
use crate::render::form_arithmetic;
use crate::render::form_arithmetic::Form;
use crate::render::interval_arithmetic;
use crate::render::locus_laws;
use crate::render::neutral_laws;
use crate::render::slope_arithmetic;
use crate::render::white_balance;
use crate::render::white_balance::{Matrix, NarrowMatrix, Pair};

verus! {

/// An eighth, in the units of the sliders.
pub const EIGHTH: u32 = 0x3e00_0000;

/// Less than nothing by an eighth.
pub const MINUS_EIGHTH: u32 = 0xbe00_0000;

/// The red of a neutral color of full strength behind a matrix.
pub open spec fn red_of_white(m: NarrowMatrix) -> int {
    adaptation_laws::row_sum(m.first)
}

/// The green of a neutral color of full strength behind a matrix.
pub open spec fn green_of_white(m: NarrowMatrix) -> int {
    adaptation_laws::row_sum(m.second)
}

/// The blue of a neutral color of full strength behind a matrix.
pub open spec fn blue_of_white(m: NarrowMatrix) -> int {
    adaptation_laws::row_sum(m.third)
}

/// The sums of the rows of the matrix for a white in range, with the gains of
/// the cones.
#[verifier::rlimit(40)]
proof fn lemma_rows(white: Pair, inverse: Matrix) -> (s: Form)
    requires
        adaptation_laws::is_in_range(white),
        white_balance::cat16_values().inverse() == Some(inverse),
    ensures
        ({
            let m = white_balance::adaptation_to(white, inverse).narrowed();
            let p = pow2(925) as int;
            let b = wide_bounds::one();
            let xyz = white_balance::tristimulus(white);
            let (x, z) = (wide_bounds::exact(xyz.a), wide_bounds::exact(xyz.c));
            &&& p > 0
            &&& s.is_small()
            &&& -8 * b <= x <= 8 * b
            &&& -8 * b <= z <= 8 * b
            &&& adaptation_laws::gains_agree(s, x, z, b)
            &&& adaptation_laws::rows_agree(
                red_of_white(m) * p,
                green_of_white(m) * p,
                blue_of_white(m) * p,
                s,
                b,
            )
        }),
{
    adaptation_laws::lemma_inverse();
    adaptation_laws::lemma_adaptation(white, inverse);
    let source = white_balance::reference_cone();
    let target = white_balance::cat16_values().applied(white_balance::tristimulus(white));
    let s = adaptation_laws::gain_point(
        target.a.quotient(source.a),
        target.b.quotient(source.b),
        target.c.quotient(source.c),
    );
    adaptation_laws::lemma_rows(white_balance::adaptation_to(white, inverse), s);
    lemma_pow2_pos(925);
    s
}

/// What the tristimulus values are divided from: the third is divided from
/// what is returned.
proof fn lemma_tristimulus_ratios(white: Pair) -> (n: int)
    requires
        adaptation_laws::is_in_range(white),
    ensures
        ({
            let (x, y) = (wide_bounds::exact(white.x), wide_bounds::exact(white.y));
            let xyz = white_balance::tristimulus(white);
            let u = form_arithmetic::part();
            &&& -2 * u <= n - (wide_bounds::one() - x - y) <= 2 * u
            &&& y > 0
            &&& interval_arithmetic::is_ratio(wide_bounds::exact(xyz.a), x, y)
            &&& interval_arithmetic::is_ratio(wide_bounds::exact(xyz.c), n, y)
        }),
{
    let u = form_arithmetic::part();
    form_arithmetic::lemma_parts();
    let one = white_balance::number(white_balance::ONE);
    lemma2_to64();
    lemma2_to64_rest();
    rounding::lemma_encode(1022, 0x10_0000_0000_0000, 53);
    lemma_pow2_adds(52, 1022);
    assert(one.finite() && wide_bounds::exact(one) == wide_bounds::one());
    interval_arithmetic::lemma_sum_agrees(one, white.x);
    interval_arithmetic::lemma_sum_agrees(one.difference(white.x), white.y);
    let rest = one.difference(white.x).difference(white.y);
    interval_arithmetic::lemma_ratio_agrees(white.x, white.y);
    interval_arithmetic::lemma_ratio_agrees(rest, white.y);
    wide_bounds::exact(rest)
}

/// The white has more red than green behind the matrix.
proof fn lemma_warm_red_values(a: int, b: int, c: int, s: Form, x: int, z: int, whole: int, u: int)
    requires
        u > 0,
        whole == 0x100_0000_0000 * u,
        whole == wide_bounds::one(),
        s.is_small(),
        -8 * whole <= x <= 8 * whole,
        -8 * whole <= z <= 8 * whole,
        adaptation_laws::rows_agree(a, b, c, s, whole),
        adaptation_laws::gains_agree(s, x, z, whole),
        4414238 * x - 566343 * z >= 3935003409926216383 * u,
    ensures
        a - b > 0,
{
    reveal(adaptation_laws::rows_agree);
    reveal(adaptation_laws::gains_agree);
    let form = 6998552272421 * s.a - 7107795312086 * s.b + 109242768564 * s.c;
    assert((a - b) * 0x100_0000_0000 >= form - 109800000 * whole);
    let first = s.a * 1072612688388 - (441220822087 * x + 714872773566 * whole - 56581967877 * z);
    let second = s.b * 1117634823127
        - (-275172576060 * x + 1324267197656 * whole + 50417006180 * z);
    let third = s.c * 1192955106634 - (-2285884674 * x + 53823293203 * whole + 1047974219247 * z);
    assert(form * 0x100_0000_0000 == 7174061694804 * first - 6992537662369 * second
        + 100685846113 * third
        + (-52508370256 * s.a + 363572707127 * s.b + 292052620022 * s.c)
        + (5089269844202407199449926 * x - 4126027629334566488586061 * whole
        - 652949171931061967514617 * z));
}

/// A white of some chromaticity has more red than green behind the matrix.
proof fn lemma_warm_red_white(white: Pair, inverse: Matrix)
    requires
        adaptation_laws::is_in_range(white),
        white_balance::cat16_values().inverse() == Some(inverse),
        4980581 * wide_bounds::exact(white.x) - 3012522 * wide_bounds::exact(white.y)
            >= 622700713810675855 * form_arithmetic::part(),
    ensures
        ({
            let m = white_balance::adaptation_to(white, inverse).narrowed();
            green_of_white(m) < red_of_white(m)
        }),
{
    let u = form_arithmetic::part();
    form_arithmetic::lemma_parts();
    let (x, y) = (wide_bounds::exact(white.x), wide_bounds::exact(white.y));
    let xyz = white_balance::tristimulus(white);
    let (v, w) = (wide_bounds::exact(xyz.a), wide_bounds::exact(xyz.c));
    let n = lemma_tristimulus_ratios(white);
    assert((4414238 * x - 566343 * n) * 0x100_0000_0000 >= 3935003409935044859 * y);
    interval_arithmetic::lemma_combined(
        v,
        w,
        y,
        x,
        n,
        4414238,
        -566343,
        4414238,
        3935003409926216383,
        u,
    );
    let s = lemma_rows(white, inverse);
    let m = white_balance::adaptation_to(white, inverse).narrowed();
    let p = pow2(925) as int;
    let (red, green, blue) = (red_of_white(m), green_of_white(m), blue_of_white(m));
    lemma_warm_red_values(red * p, green * p, blue * p, s, v, w, wide_bounds::one(), u);
    assert(green < red) by (nonlinear_arith)
        requires
            (red * p) - (green * p) > 0,
            p > 0,
    {
        let total = red - green;
        assert(total * p > 0);
        assert(total > 0);
    }
}

/// A white at some place of the uniform scale has more red than green behind the
/// matrix.
proof fn lemma_warm_red_place(uv: Pair, inverse: Matrix)
    requires
        locus_laws::is_near_locus(uv, 5497558138, 2200122767179, 2196824232296, 4395847487848),
        white_balance::cat16_values().inverse() == Some(inverse),
        13809055 * wide_bounds::exact(uv.x) - 1494292 * wide_bounds::exact(uv.y)
            >= 2490807253294942255 * form_arithmetic::part(),
    ensures
        ({
            let m = white_balance::adaptation_to(
                white_balance::from_uniform(uv),
                inverse,
            ).narrowed();
            green_of_white(m) < red_of_white(m)
        }),
{
    let u = form_arithmetic::part();
    form_arithmetic::lemma_parts();
    let white = white_balance::from_uniform(uv);
    let (x, y) = (wide_bounds::exact(uv.x), wide_bounds::exact(uv.y));
    let (v, w) = (wide_bounds::exact(white.y), wide_bounds::exact(white.x));
    locus_laws::lemma_back(uv);
    let (d, m, n) = locus_laws::lemma_back_ratios(uv);
    assert((-3012522 * m + 4980581 * n) * 0x100_0000_0000 >= 622700713820637017 * d);
    interval_arithmetic::lemma_combined(
        v,
        w,
        d,
        m,
        n,
        -3012522,
        4980581,
        4980581,
        622700713810675855,
        u,
    );
    lemma_warm_red_white(white, inverse);
}

/// Where the locus stands for a white that has more red than green.
proof fn lemma_warm_red_locus(xy: Pair)
    requires
        locus_laws::is_known(xy),
        59843340 * wide_bounds::exact(xy.x) - 36608472 * wide_bounds::exact(xy.y)
            >= 7598373015863565267 * form_arithmetic::part(),
    ensures
        ({
            let uv = white_balance::uniform(xy);
            13809055 * wide_bounds::exact(uv.x) - 1494292 * wide_bounds::exact(uv.y)
                >= 2532790658576033527 * form_arithmetic::part()
        }),
{
    let u = form_arithmetic::part();
    form_arithmetic::lemma_parts();
    let (x, y) = (wide_bounds::exact(xy.x), wide_bounds::exact(xy.y));
    let uv = white_balance::uniform(xy);
    let (v, w) = (wide_bounds::exact(uv.y), wide_bounds::exact(uv.x));
    let (d, m, n) = locus_laws::lemma_uniform_ratios(xy);
    assert((-1494292 * m + 13809055 * n) * 0x100_0000_0000 >= 2532790658603651637 * d);
    interval_arithmetic::lemma_combined(
        v,
        w,
        d,
        m,
        n,
        -1494292,
        13809055,
        13809055,
        2532790658576033527,
        u,
    );
}

/// The white has more green than blue behind the matrix.
proof fn lemma_warm_blue_values(a: int, b: int, c: int, s: Form, x: int, z: int, whole: int, u: int)
    requires
        u > 0,
        whole == 0x100_0000_0000 * u,
        whole == wide_bounds::one(),
        s.is_small(),
        -8 * whole <= x <= 8 * whole,
        -8 * whole <= z <= 8 * whole,
        adaptation_laws::rows_agree(a, b, c, s, whole),
        adaptation_laws::gains_agree(s, x, z, whole),
        -1074696 * x - 1064759 * z >= -2397953197625515388 * u,
    ensures
        b - c > 0,
{
    reveal(adaptation_laws::rows_agree);
    reveal(adaptation_laws::gains_agree);
    let form = -1165191075075 * s.a + 2641757103126 * s.b - 1476565835033 * s.c;
    assert((b - c) * 0x100_0000_0000 >= form - 109800000 * whole);
    let first = s.a * 1072612688388 - (441220822087 * x + 714872773566 * whole - 56581967877 * z);
    let second = s.b * 1117634823127
        - (-275172576060 * x + 1324267197656 * whole + 50417006180 * z);
    let third = s.c * 1192955106634 - (-2285884674 * x + 53823293203 * whole + 1047974219247 * z);
    assert(form * 0x100_0000_0000 == -1194411691653 * first + 2598919246736 * second
        - 1360907292963 * third
        + (202558342164 * s.a - 266874035696 * s.b + 101426139934 * s.c)
        + (-1239039735474001932930909 * x + 2514562596766438495975729 * whole
        - 1227583866117415090399700 * z));
}

/// A white of some chromaticity has more green than blue behind the matrix.
proof fn lemma_warm_blue_white(white: Pair, inverse: Matrix)
    requires
        adaptation_laws::is_in_range(white),
        white_balance::cat16_values().inverse() == Some(inverse),
        -9937 * wide_bounds::exact(white.x) + 3245684 * wide_bounds::exact(white.y)
            >= 1170714901281275503 * form_arithmetic::part(),
    ensures
        ({
            let m = white_balance::adaptation_to(white, inverse).narrowed();
            blue_of_white(m) < green_of_white(m)
        }),
{
    let u = form_arithmetic::part();
    form_arithmetic::lemma_parts();
    let (x, y) = (wide_bounds::exact(white.x), wide_bounds::exact(white.y));
    let xyz = white_balance::tristimulus(white);
    let (v, w) = (wide_bounds::exact(xyz.a), wide_bounds::exact(xyz.c));
    let n = lemma_tristimulus_ratios(white);
    assert((-1074696 * x - 1064759 * n) * 0x100_0000_0000 >= -2397953197623365996 * y);
    interval_arithmetic::lemma_combined(
        v,
        w,
        y,
        x,
        n,
        -1074696,
        -1064759,
        1074696,
        -2397953197625515388,
        u,
    );
    let s = lemma_rows(white, inverse);
    let m = white_balance::adaptation_to(white, inverse).narrowed();
    let p = pow2(925) as int;
    let (red, green, blue) = (red_of_white(m), green_of_white(m), blue_of_white(m));
    lemma_warm_blue_values(red * p, green * p, blue * p, s, v, w, wide_bounds::one(), u);
    assert(blue < green) by (nonlinear_arith)
        requires
            (green * p) - (blue * p) > 0,
            p > 0,
    {
        let total = green - blue;
        assert(total * p > 0);
        assert(total > 0);
    }
}

/// A white at some place of the uniform scale has more green than blue behind the
/// matrix.
proof fn lemma_warm_blue_place(uv: Pair, inverse: Matrix)
    requires
        locus_laws::is_near_locus(uv, 5497558138, 2200122767179, 2196824232296, 4395847487848),
        white_balance::cat16_values().inverse() == Some(inverse),
        -2159331 * wide_bounds::exact(uv.x) + 15009448 * wide_bounds::exact(uv.y)
            >= 4682864003170609701 * form_arithmetic::part(),
    ensures
        ({
            let m = white_balance::adaptation_to(
                white_balance::from_uniform(uv),
                inverse,
            ).narrowed();
            blue_of_white(m) < green_of_white(m)
        }),
{
    let u = form_arithmetic::part();
    form_arithmetic::lemma_parts();
    let white = white_balance::from_uniform(uv);
    let (x, y) = (wide_bounds::exact(uv.x), wide_bounds::exact(uv.y));
    let (v, w) = (wide_bounds::exact(white.y), wide_bounds::exact(white.x));
    locus_laws::lemma_back(uv);
    let (d, m, n) = locus_laws::lemma_back_ratios(uv);
    assert((3245684 * m - 9937 * n) * 0x100_0000_0000 >= 1170714901287766871 * d);
    interval_arithmetic::lemma_combined(
        v,
        w,
        d,
        m,
        n,
        3245684,
        -9937,
        3245684,
        1170714901281275503,
        u,
    );
    lemma_warm_blue_white(white, inverse);
}

/// Where the locus stands for a white that has more green than blue.
proof fn lemma_warm_blue_locus(xy: Pair)
    requires
        locus_laws::is_known(xy),
        -186484 * wide_bounds::exact(xy.x) + 39351648 * wide_bounds::exact(xy.y)
            >= 13937695266745868219 * form_arithmetic::part(),
    ensures
        ({
            let uv = white_balance::uniform(xy);
            -2159331 * wide_bounds::exact(uv.x) + 15009448 * wide_bounds::exact(uv.y)
                >= 4645898311902568679 * form_arithmetic::part()
        }),
{
    let u = form_arithmetic::part();
    form_arithmetic::lemma_parts();
    let (x, y) = (wide_bounds::exact(xy.x), wide_bounds::exact(xy.y));
    let uv = white_balance::uniform(xy);
    let (v, w) = (wide_bounds::exact(uv.y), wide_bounds::exact(uv.x));
    let (d, m, n) = locus_laws::lemma_uniform_ratios(xy);
    assert((15009448 * m - 2159331 * n) * 0x100_0000_0000 >= 4645898311932587575 * d);
    interval_arithmetic::lemma_combined(
        v,
        w,
        d,
        m,
        n,
        15009448,
        -2159331,
        15009448,
        4645898311902568679,
        u,
    );
}

/// The white has more green than red behind the matrix.
proof fn lemma_cool_red_values(a: int, b: int, c: int, s: Form, x: int, z: int, whole: int, u: int)
    requires
        u > 0,
        whole == 0x100_0000_0000 * u,
        whole == wide_bounds::one(),
        s.is_small(),
        -8 * whole <= x <= 8 * whole,
        -8 * whole <= z <= 8 * whole,
        adaptation_laws::rows_agree(a, b, c, s, whole),
        adaptation_laws::gains_agree(s, x, z, whole),
        -4414238 * x + 566343 * z >= -3934769747831669528 * u,
    ensures
        -a + b > 0,
{
    reveal(adaptation_laws::rows_agree);
    reveal(adaptation_laws::gains_agree);
    let form = -6998552272421 * s.a + 7107795312086 * s.b - 109242768564 * s.c;
    assert((-a + b) * 0x100_0000_0000 >= form - 109800000 * whole);
    let first = s.a * 1072612688388 - (441220822087 * x + 714872773566 * whole - 56581967877 * z);
    let second = s.b * 1117634823127
        - (-275172576060 * x + 1324267197656 * whole + 50417006180 * z);
    let third = s.c * 1192955106634 - (-2285884674 * x + 53823293203 * whole + 1047974219247 * z);
    assert(form * 0x100_0000_0000 == -7174061694804 * first + 6992537662369 * second
        - 100685846113 * third
        + (52508370256 * s.a - 363572707127 * s.b - 292052620022 * s.c)
        + (-5089269844202407199449926 * x + 4126027629334566488586061 * whole
        + 652949171931061967514617 * z));
}

/// A white of some chromaticity has more green than red behind the matrix.
proof fn lemma_cool_red_white(white: Pair, inverse: Matrix)
    requires
        adaptation_laws::is_in_range(white),
        white_balance::cat16_values().inverse() == Some(inverse),
        -4980581 * wide_bounds::exact(white.x) + 3012309 * wide_bounds::exact(white.y)
            >= -622700713808410481 * form_arithmetic::part(),
    ensures
        ({
            let m = white_balance::adaptation_to(white, inverse).narrowed();
            red_of_white(m) < green_of_white(m)
        }),
{
    let u = form_arithmetic::part();
    form_arithmetic::lemma_parts();
    let (x, y) = (wide_bounds::exact(white.x), wide_bounds::exact(white.y));
    let xyz = white_balance::tristimulus(white);
    let (v, w) = (wide_bounds::exact(xyz.a), wide_bounds::exact(xyz.c));
    let n = lemma_tristimulus_ratios(white);
    assert((-4414238 * x + 566343 * n) * 0x100_0000_0000 >= -3934769747822841052 * y);
    interval_arithmetic::lemma_combined(
        v,
        w,
        y,
        x,
        n,
        -4414238,
        566343,
        4414238,
        -3934769747831669528,
        u,
    );
    let s = lemma_rows(white, inverse);
    let m = white_balance::adaptation_to(white, inverse).narrowed();
    let p = pow2(925) as int;
    let (red, green, blue) = (red_of_white(m), green_of_white(m), blue_of_white(m));
    lemma_cool_red_values(red * p, green * p, blue * p, s, v, w, wide_bounds::one(), u);
    assert(red < green) by (nonlinear_arith)
        requires
            -(red * p) + (green * p) > 0,
            p > 0,
    {
        let total = -red + green;
        assert(total * p > 0);
        assert(total > 0);
    }
}

/// A white at some place of the uniform scale has more green than red behind the
/// matrix.
proof fn lemma_cool_red_place(uv: Pair, inverse: Matrix)
    requires
        locus_laws::is_near_locus(uv, 5497558138, 2200122767179, 2196824232296, 4395847487848),
        white_balance::cat16_values().inverse() == Some(inverse),
        -13809059 * wide_bounds::exact(uv.x) + 1493882 * wide_bounds::exact(uv.y)
            >= -2490798457181403310 * form_arithmetic::part(),
    ensures
        ({
            let m = white_balance::adaptation_to(
                white_balance::from_uniform(uv),
                inverse,
            ).narrowed();
            red_of_white(m) < green_of_white(m)
        }),
{
    let u = form_arithmetic::part();
    form_arithmetic::lemma_parts();
    let white = white_balance::from_uniform(uv);
    let (x, y) = (wide_bounds::exact(uv.x), wide_bounds::exact(uv.y));
    let (v, w) = (wide_bounds::exact(white.y), wide_bounds::exact(white.x));
    locus_laws::lemma_back(uv);
    let (d, m, n) = locus_laws::lemma_back_ratios(uv);
    assert((3012309 * m - 4980581 * n) * 0x100_0000_0000 >= -622700713798449319 * d);
    interval_arithmetic::lemma_combined(
        v,
        w,
        d,
        m,
        n,
        3012309,
        -4980581,
        4980581,
        -622700713808410481,
        u,
    );
    lemma_cool_red_white(white, inverse);
}

/// Where the locus stands for a white that has more green than red.
proof fn lemma_cool_red_locus(xy: Pair)
    requires
        locus_laws::is_known(xy),
        -59843336 * wide_bounds::exact(xy.x) + 36605892 * wide_bounds::exact(xy.y)
            >= -7598340030465697259 * form_arithmetic::part(),
    ensures
        ({
            let uv = white_balance::uniform(xy);
            -13809059 * wide_bounds::exact(uv.x) + 1493882 * wide_bounds::exact(uv.y)
                >= -2532781028799226938 * form_arithmetic::part()
        }),
{
    let u = form_arithmetic::part();
    form_arithmetic::lemma_parts();
    let (x, y) = (wide_bounds::exact(xy.x), wide_bounds::exact(xy.y));
    let uv = white_balance::uniform(xy);
    let (v, w) = (wide_bounds::exact(uv.y), wide_bounds::exact(uv.x));
    let (d, m, n) = locus_laws::lemma_uniform_ratios(xy);
    assert((1493882 * m - 13809059 * n) * 0x100_0000_0000 >= -2532781028771608820 * d);
    interval_arithmetic::lemma_combined(
        v,
        w,
        d,
        m,
        n,
        1493882,
        -13809059,
        13809059,
        -2532781028799226938,
        u,
    );
}

/// The white has more blue than green behind the matrix.
proof fn lemma_cool_blue_values(a: int, b: int, c: int, s: Form, x: int, z: int, whole: int, u: int)
    requires
        u > 0,
        whole == 0x100_0000_0000 * u,
        whole == wide_bounds::one(),
        s.is_small(),
        -8 * whole <= x <= 8 * whole,
        -8 * whole <= z <= 8 * whole,
        adaptation_laws::rows_agree(a, b, c, s, whole),
        adaptation_laws::gains_agree(s, x, z, whole),
        1074696 * x + 1064759 * z >= 2398194333438400811 * u,
    ensures
        -b + c > 0,
{
    reveal(adaptation_laws::rows_agree);
    reveal(adaptation_laws::gains_agree);
    let form = 1165191075075 * s.a - 2641757103126 * s.b + 1476565835033 * s.c;
    assert((-b + c) * 0x100_0000_0000 >= form - 109800000 * whole);
    let first = s.a * 1072612688388 - (441220822087 * x + 714872773566 * whole - 56581967877 * z);
    let second = s.b * 1117634823127
        - (-275172576060 * x + 1324267197656 * whole + 50417006180 * z);
    let third = s.c * 1192955106634 - (-2285884674 * x + 53823293203 * whole + 1047974219247 * z);
    assert(form * 0x100_0000_0000 == 1194411691653 * first - 2598919246736 * second
        + 1360907292963 * third
        + (-202558342164 * s.a + 266874035696 * s.b - 101426139934 * s.c)
        + (1239039735474001932930909 * x - 2514562596766438495975729 * whole
        + 1227583866117415090399700 * z));
}

/// A white of some chromaticity has more blue than green behind the matrix.
proof fn lemma_cool_blue_white(white: Pair, inverse: Matrix)
    requires
        adaptation_laws::is_in_range(white),
        white_balance::cat16_values().inverse() == Some(inverse),
        9937 * wide_bounds::exact(white.x) - 3245905 * wide_bounds::exact(white.y)
            >= -1170714901277016465 * form_arithmetic::part(),
    ensures
        ({
            let m = white_balance::adaptation_to(white, inverse).narrowed();
            green_of_white(m) < blue_of_white(m)
        }),
{
    let u = form_arithmetic::part();
    form_arithmetic::lemma_parts();
    let (x, y) = (wide_bounds::exact(white.x), wide_bounds::exact(white.y));
    let xyz = white_balance::tristimulus(white);
    let (v, w) = (wide_bounds::exact(xyz.a), wide_bounds::exact(xyz.c));
    let n = lemma_tristimulus_ratios(white);
    assert((1074696 * x + 1064759 * n) * 0x100_0000_0000 >= 2398194333440550203 * y);
    interval_arithmetic::lemma_combined(
        v,
        w,
        y,
        x,
        n,
        1074696,
        1064759,
        1074696,
        2398194333438400811,
        u,
    );
    let s = lemma_rows(white, inverse);
    let m = white_balance::adaptation_to(white, inverse).narrowed();
    let p = pow2(925) as int;
    let (red, green, blue) = (red_of_white(m), green_of_white(m), blue_of_white(m));
    lemma_cool_blue_values(red * p, green * p, blue * p, s, v, w, wide_bounds::one(), u);
    assert(green < blue) by (nonlinear_arith)
        requires
            -(green * p) + (blue * p) > 0,
            p > 0,
    {
        let total = -green + blue;
        assert(total * p > 0);
        assert(total > 0);
    }
}

/// A white at some place of the uniform scale has more blue than green behind the
/// matrix.
proof fn lemma_cool_blue_place(uv: Pair, inverse: Matrix)
    requires
        locus_laws::is_near_locus(uv, 5497558138, 2200122767179, 2196824232296, 4395847487848),
        white_balance::cat16_values().inverse() == Some(inverse),
        2159327 * wide_bounds::exact(uv.x) - 15009874 * wide_bounds::exact(uv.y)
            >= -4682855207062557958 * form_arithmetic::part(),
    ensures
        ({
            let m = white_balance::adaptation_to(
                white_balance::from_uniform(uv),
                inverse,
            ).narrowed();
            green_of_white(m) < blue_of_white(m)
        }),
{
    let u = form_arithmetic::part();
    form_arithmetic::lemma_parts();
    let white = white_balance::from_uniform(uv);
    let (x, y) = (wide_bounds::exact(uv.x), wide_bounds::exact(uv.y));
    let (v, w) = (wide_bounds::exact(white.y), wide_bounds::exact(white.x));
    locus_laws::lemma_back(uv);
    let (d, m, n) = locus_laws::lemma_back_ratios(uv);
    assert((-3245905 * m + 9937 * n) * 0x100_0000_0000 >= -1170714901270524655 * d);
    interval_arithmetic::lemma_combined(
        v,
        w,
        d,
        m,
        n,
        -3245905,
        9937,
        3245905,
        -1170714901277016465,
        u,
    );
    lemma_cool_blue_white(white, inverse);
}

/// Where the locus stands for a white that has more blue than green.
proof fn lemma_cool_blue_locus(xy: Pair)
    requires
        locus_laws::is_known(xy),
        186486 * wide_bounds::exact(xy.x) - 39354312 * wide_bounds::exact(xy.y)
            >= -13937665579863776963 * form_arithmetic::part(),
    ensures
        ({
            let uv = white_balance::uniform(xy);
            2159327 * wide_bounds::exact(uv.x) - 15009874 * wide_bounds::exact(uv.y)
                >= -4645888646911178864 * form_arithmetic::part()
        }),
{
    let u = form_arithmetic::part();
    form_arithmetic::lemma_parts();
    let (x, y) = (wide_bounds::exact(xy.x), wide_bounds::exact(xy.y));
    let uv = white_balance::uniform(xy);
    let (v, w) = (wide_bounds::exact(uv.y), wide_bounds::exact(uv.x));
    let (d, m, n) = locus_laws::lemma_uniform_ratios(xy);
    assert((-15009874 * m + 2159327 * n) * 0x100_0000_0000 >= -4645888646881159116 * d);
    interval_arithmetic::lemma_combined(
        v,
        w,
        d,
        m,
        n,
        -15009874,
        2159327,
        15009874,
        -4645888646911178864,
        u,
    );
}

/// The white has less green than the mean of red and blue behind the matrix.
proof fn lemma_magenta_values(a: int, b: int, c: int, s: Form, x: int, z: int, whole: int, u: int)
    requires
        u > 0,
        whole == 0x100_0000_0000 * u,
        whole == wide_bounds::one(),
        s.is_small(),
        -8 * whole <= x <= 8 * whole,
        -8 * whole <= z <= 8 * whole,
        adaptation_laws::rows_agree(a, b, c, s, whole),
        adaptation_laws::gains_agree(s, x, z, whole),
        5488934 * x + 498416 * z >= 6333195481285768041 * u,
    ensures
        a - 2 * b + c > 0,
{
    reveal(adaptation_laws::rows_agree);
    reveal(adaptation_laws::gains_agree);
    let form = 8163743347496 * s.a - 9749552415212 * s.b + 1585808603597 * s.c;
    assert((a - 2 * b + c) * 0x100_0000_0000 >= form - 219600000 * whole);
    let first = s.a * 1072612688388 - (441220822087 * x + 714872773566 * whole - 56581967877 * z);
    let second = s.b * 1117634823127
        - (-275172576060 * x + 1324267197656 * whole + 50417006180 * z);
    let third = s.c * 1192955106634 - (-2285884674 * x + 53823293203 * whole + 1047974219247 * z);
    assert(form * 0x100_0000_0000 == 8368473386457 * first - 9591456909104 * second
        + 1461593139076 * third
        + (-255066712420 * s.a - 487188080304 * s.b + 190626480088 * s.c)
        + (6328309579676133959804775 * x - 6640590226099680717364134 * whole
        + 574634694186403539891263 * z));
}

/// A white of some chromaticity has less green than the mean of red and blue behind the matrix.
proof fn lemma_magenta_white(white: Pair, inverse: Matrix)
    requires
        adaptation_laws::is_in_range(white),
        white_balance::cat16_values().inverse() == Some(inverse),
        4990518 * wide_bounds::exact(white.x) - 6258424 * wide_bounds::exact(white.y)
            >= -548014187468605983 * form_arithmetic::part(),
    ensures
        ({
            let m = white_balance::adaptation_to(white, inverse).narrowed();
            2 * green_of_white(m) < red_of_white(m) + blue_of_white(m)
        }),
{
    let u = form_arithmetic::part();
    form_arithmetic::lemma_parts();
    let (x, y) = (wide_bounds::exact(white.x), wide_bounds::exact(white.y));
    let xyz = white_balance::tristimulus(white);
    let (v, w) = (wide_bounds::exact(xyz.a), wide_bounds::exact(xyz.c));
    let n = lemma_tristimulus_ratios(white);
    assert((5488934 * x + 498416 * n) * 0x100_0000_0000 >= 6333195481296745909 * y);
    interval_arithmetic::lemma_combined(
        v,
        w,
        y,
        x,
        n,
        5488934,
        498416,
        5488934,
        6333195481285768041,
        u,
    );
    let s = lemma_rows(white, inverse);
    let m = white_balance::adaptation_to(white, inverse).narrowed();
    let p = pow2(925) as int;
    let (red, green, blue) = (red_of_white(m), green_of_white(m), blue_of_white(m));
    lemma_magenta_values(red * p, green * p, blue * p, s, v, w, wide_bounds::one(), u);
    assert(2 * green < red + blue) by (nonlinear_arith)
        requires
            (red * p) - 2 * (green * p) + (blue * p) > 0,
            p > 0,
    {
        let total = red - 2 * green + blue;
        assert(total * p > 0);
        assert(total > 0);
    }
}

/// A white at some place of the uniform scale has less green than the mean of
/// red and blue behind the matrix.
proof fn lemma_magenta_place(uv: Pair, inverse: Matrix)
    requires
        locus_laws::is_near_locus(uv, 5497558138, 2200122767179, 2196824232296, 4395847487848),
        white_balance::cat16_values().inverse() == Some(inverse),
        15968384 * wide_bounds::exact(uv.x) - 16504168 * wide_bounds::exact(uv.y)
            >= -2192052351818657558 * form_arithmetic::part(),
    ensures
        ({
            let m = white_balance::adaptation_to(
                white_balance::from_uniform(uv),
                inverse,
            ).narrowed();
            2 * green_of_white(m) < red_of_white(m) + blue_of_white(m)
        }),
{
    let u = form_arithmetic::part();
    form_arithmetic::lemma_parts();
    let white = white_balance::from_uniform(uv);
    let (x, y) = (wide_bounds::exact(uv.x), wide_bounds::exact(uv.y));
    let (v, w) = (wide_bounds::exact(white.y), wide_bounds::exact(white.x));
    locus_laws::lemma_back(uv);
    let (d, m, n) = locus_laws::lemma_back_ratios(uv);
    assert((-6258424 * m + 4990518 * n) * 0x100_0000_0000 >= -548014187456089135 * d);
    interval_arithmetic::lemma_combined(
        v,
        w,
        d,
        m,
        n,
        -6258424,
        4990518,
        6258424,
        -548014187468605983,
        u,
    );
    lemma_magenta_white(white, inverse);
}

/// The white has more green than the mean of red and blue behind the matrix.
proof fn lemma_green_values(a: int, b: int, c: int, s: Form, x: int, z: int, whole: int, u: int)
    requires
        u > 0,
        whole == 0x100_0000_0000 * u,
        whole == wide_bounds::one(),
        s.is_small(),
        -8 * whole <= x <= 8 * whole,
        -8 * whole <= z <= 8 * whole,
        adaptation_laws::rows_agree(a, b, c, s, whole),
        adaptation_laws::gains_agree(s, x, z, whole),
        -5488934 * x - 498416 * z >= -6332725207533508229 * u,
    ensures
        -a + 2 * b - c > 0,
{
    reveal(adaptation_laws::rows_agree);
    reveal(adaptation_laws::gains_agree);
    let form = -8163743347496 * s.a + 9749552415212 * s.b - 1585808603597 * s.c;
    assert((-a + 2 * b - c) * 0x100_0000_0000 >= form - 219600000 * whole);
    let first = s.a * 1072612688388 - (441220822087 * x + 714872773566 * whole - 56581967877 * z);
    let second = s.b * 1117634823127
        - (-275172576060 * x + 1324267197656 * whole + 50417006180 * z);
    let third = s.c * 1192955106634 - (-2285884674 * x + 53823293203 * whole + 1047974219247 * z);
    assert(form * 0x100_0000_0000 == -8368473386457 * first + 9591456909104 * second
        - 1461593139076 * third
        + (255066712420 * s.a + 487188080304 * s.b - 190626480088 * s.c)
        + (-6328309579676133959804775 * x + 6640590226099680717364134 * whole
        - 574634694186403539891263 * z));
}

/// A white of some chromaticity has more green than the mean of red and blue behind the matrix.
proof fn lemma_green_white(white: Pair, inverse: Matrix)
    requires
        adaptation_laws::is_in_range(white),
        white_balance::cat16_values().inverse() == Some(inverse),
        -4990518 * wide_bounds::exact(white.x) + 6257996 * wide_bounds::exact(white.y)
            >= 548014187470599649 * form_arithmetic::part(),
    ensures
        ({
            let m = white_balance::adaptation_to(white, inverse).narrowed();
            red_of_white(m) + blue_of_white(m) < 2 * green_of_white(m)
        }),
{
    let u = form_arithmetic::part();
    form_arithmetic::lemma_parts();
    let (x, y) = (wide_bounds::exact(white.x), wide_bounds::exact(white.y));
    let xyz = white_balance::tristimulus(white);
    let (v, w) = (wide_bounds::exact(xyz.a), wide_bounds::exact(xyz.c));
    let n = lemma_tristimulus_ratios(white);
    assert((-5488934 * x - 498416 * n) * 0x100_0000_0000 >= -6332725207522530361 * y);
    interval_arithmetic::lemma_combined(
        v,
        w,
        y,
        x,
        n,
        -5488934,
        -498416,
        5488934,
        -6332725207533508229,
        u,
    );
    let s = lemma_rows(white, inverse);
    let m = white_balance::adaptation_to(white, inverse).narrowed();
    let p = pow2(925) as int;
    let (red, green, blue) = (red_of_white(m), green_of_white(m), blue_of_white(m));
    lemma_green_values(red * p, green * p, blue * p, s, v, w, wide_bounds::one(), u);
    assert(red + blue < 2 * green) by (nonlinear_arith)
        requires
            -(red * p) + 2 * (green * p) - (blue * p) > 0,
            p > 0,
    {
        let total = -red + 2 * green - blue;
        assert(total * p > 0);
        assert(total > 0);
    }
}

/// A white at some place of the uniform scale has more green than the mean of
/// red and blue behind the matrix.
proof fn lemma_green_place(uv: Pair, inverse: Matrix)
    requires
        locus_laws::is_near_locus(uv, 5497558138, 2200122767179, 2196824232296, 4395847487848),
        white_balance::cat16_values().inverse() == Some(inverse),
        -15968388 * wide_bounds::exact(uv.x) + 16503328 * wide_bounds::exact(uv.y)
            >= 2192061147938164550 * form_arithmetic::part(),
    ensures
        ({
            let m = white_balance::adaptation_to(
                white_balance::from_uniform(uv),
                inverse,
            ).narrowed();
            red_of_white(m) + blue_of_white(m) < 2 * green_of_white(m)
        }),
{
    let u = form_arithmetic::part();
    form_arithmetic::lemma_parts();
    let white = white_balance::from_uniform(uv);
    let (x, y) = (wide_bounds::exact(uv.x), wide_bounds::exact(uv.y));
    let (v, w) = (wide_bounds::exact(white.y), wide_bounds::exact(white.x));
    locus_laws::lemma_back(uv);
    let (d, m, n) = locus_laws::lemma_back_ratios(uv);
    assert((6257996 * m - 4990518 * n) * 0x100_0000_0000 >= 548014187483115641 * d);
    interval_arithmetic::lemma_combined(
        v,
        w,
        d,
        m,
        n,
        6257996,
        -4990518,
        6257996,
        548014187470599649,
        u,
    );
    lemma_green_white(white, inverse);
}

/// A valid amount of an eighth or more, widened.
proof fn lemma_amount(amount: Scalar)
    requires
        amount.finite(),
        amount.at_most(Scalar { bits: constants::HUNDRED }),
        (Scalar { bits: EIGHTH }).at_most(amount),
    ensures
        interval_arithmetic::lies(amount.widened(), 137438953471, 109951162777601),
{
    let (low, high) = (Scalar { bits: EIGHTH }, Scalar { bits: constants::HUNDRED });
    form_arithmetic::lemma_parts();
    lemma_slider_ends();
    laws::order_is_exact(low, amount);
    laws::order_is_exact(amount, high);
    lemma_widened(amount);
}

/// A valid amount of minus an eighth or less, widened.
proof fn lemma_negative_amount(amount: Scalar)
    requires
        amount.finite(),
        (Scalar { bits: constants::MINUS_HUNDRED }).at_most(amount),
        amount.at_most(Scalar { bits: MINUS_EIGHTH }),
    ensures
        interval_arithmetic::lies(amount.widened(), -109951162777601, -137438953471),
{
    let (low, high) = (
        Scalar { bits: constants::MINUS_HUNDRED },
        Scalar { bits: MINUS_EIGHTH },
    );
    form_arithmetic::lemma_parts();
    lemma_slider_ends();
    laws::order_is_exact(low, amount);
    laws::order_is_exact(amount, high);
    lemma_widened(amount);
}

proof fn lemma_slider_ends()
    ensures
        (Scalar { bits: EIGHTH }).finite(),
        (Scalar { bits: MINUS_EIGHTH }).finite(),
        (Scalar { bits: constants::HUNDRED }).finite(),
        (Scalar { bits: constants::MINUS_HUNDRED }).finite(),
        8 * laws::exact(Scalar { bits: EIGHTH }) == pow2(149),
        8 * laws::exact(Scalar { bits: MINUS_EIGHTH }) == -(pow2(149) as int),
        laws::exact(Scalar { bits: constants::HUNDRED }) == 100 * pow2(149),
        laws::exact(Scalar { bits: constants::MINUS_HUNDRED }) == -(100 * pow2(149)),
{
    lemma2_to64();
    rounding::lemma_encode(132, 0xc8_0000, 24);
    rounding::lemma_encode(123, 0x80_0000, 24);
    lemma_pow2_adds(132, 17);
    lemma_pow2_adds(123, 26);
}

/// A number of limited size, widened, in the smaller units.
proof fn lemma_widened(amount: Scalar)
    requires
        amount.finite(),
        bounds::absolute(laws::exact(amount)) <= 100 * pow2(149),
    ensures
        amount.widened().finite(),
        ({
            let (n, one) = (laws::exact(amount), pow2(149) as int);
            let found = wide_bounds::exact(amount.widened());
            let (b, u) = (wide_bounds::one(), form_arithmetic::part());
            &&& n <= 100 * one ==> found <= 100 * b + u
            &&& n >= -(100 * one) ==> found >= -(100 * b) - u
            &&& 8 * n >= one ==> 8 * found >= b - 8 * u
            &&& 8 * n <= -one ==> 8 * found <= -b + 8 * u
        }),
{
    let p = pow2(925) as int;
    let (b, u) = (wide_bounds::one(), form_arithmetic::part());
    let (n, one) = (laws::exact(amount), pow2(149) as int);
    form_arithmetic::lemma_parts();
    lemma2_to64();
    lemma_pow2_adds(149, 11);
    lemma_pow2_adds(149, 925);
    lemma_pow2_pos(925);
    lemma_pow2_pos(149);
    let np = n * p;
    assert(-(100 * b) <= np <= 100 * b && (8 * n >= one ==> 8 * np >= b) && (8 * n <= -one ==> 8
        * np <= -b)) by (nonlinear_arith)
        requires
            np == n * p,
            b == one * p,
            -(100 * one) <= n <= 100 * one,
            p > 0,
    {
        assert(8 * n >= one ==> (8 * n) * p >= one * p);
        assert(8 * n <= -one ==> (8 * n) * p <= (-one) * p);
        assert((-one) * p == -(one * p));
    }
    wide_bounds::widening_is_close(amount);
}

/// The temperature of a warm adjustment.
proof fn lemma_warm_kelvin(adjustment: WhiteBalance)
    requires
        adjustment.valid(),
        (Scalar { bits: EIGHTH }).at_most(adjustment.temperature),
    ensures
        interval_arithmetic::lies(
            white_balance::known_kelvin(adjustment),
            4016458273642446,
            7144253693152295,
        ),
{
    let u = form_arithmetic::part();
    form_arithmetic::lemma_parts();
    locus_laws::lemma_slider_constants();
    lemma_amount(adjustment.temperature);
    let amount = adjustment.temperature.widened();
    let (range, hundred) = (
        white_balance::number(white_balance::MIRED_RANGE),
        white_balance::number(white_balance::HUNDRED),
    );
    let (million, reference) = (
        white_balance::number(white_balance::MILLION),
        white_balance::number(white_balance::D65_KELVIN),
    );
    let (coldest, hottest) = (
        white_balance::number(white_balance::COLDEST),
        white_balance::number(white_balance::HOTTEST),
    );
    interval_arithmetic::lemma_product(
        amount,
        range,
        137438953471,
        109951162777601,
        131941395333119,
        131941395333121,
        16492674416518,
        13194139533312233,
    );
    let step = amount.product(range).quotient(hundred);
    interval_arithmetic::lemma_quotient(
        amount.product(range),
        hundred,
        16492674416518,
        13194139533312233,
        109951162777599,
        109951162777601,
        164926744164,
        131941395333125,
    );
    let middle = million.quotient(reference);
    interval_arithmetic::lemma_quotient(
        million,
        reference,
        1099511627776000000,
        1099511627776000000,
        7151223627055104,
        7151223627055104,
        169051603286591,
        169051603286595,
    );
    interval_arithmetic::lemma_sum(
        middle,
        step,
        169051603286591,
        169051603286595,
        164926744164,
        131941395333125,
    );
    let mired = middle.sum(step);
    interval_arithmetic::lemma_quotient(
        million,
        mired,
        1099511627776000000,
        1099511627776000000,
        169216530030754,
        300992998619721,
        4016458273642446,
        7144253693152295,
    );
    let kelvin = white_balance::target_kelvin(adjustment);
    assert(kelvin == million.quotient(mired));
    wide_bounds::order_is_exact(kelvin, coldest);
    wide_bounds::order_is_exact(hottest, kelvin);
}

/// The temperature of a cool adjustment.
proof fn lemma_cool_kelvin(adjustment: WhiteBalance)
    requires
        adjustment.valid(),
        adjustment.temperature.at_most(Scalar { bits: MINUS_EIGHTH }),
    ensures
        interval_arithmetic::lies(
            white_balance::known_kelvin(adjustment),
            7158207173973791,
            27487790694400001,
        ),
{
    let u = form_arithmetic::part();
    form_arithmetic::lemma_parts();
    locus_laws::lemma_slider_constants();
    lemma_negative_amount(adjustment.temperature);
    let amount = adjustment.temperature.widened();
    let (range, hundred) = (
        white_balance::number(white_balance::MIRED_RANGE),
        white_balance::number(white_balance::HUNDRED),
    );
    let (million, reference) = (
        white_balance::number(white_balance::MILLION),
        white_balance::number(white_balance::D65_KELVIN),
    );
    let (coldest, hottest) = (
        white_balance::number(white_balance::COLDEST),
        white_balance::number(white_balance::HOTTEST),
    );
    interval_arithmetic::lemma_negative_product(
        amount,
        range,
        137438953471,
        109951162777601,
        131941395333119,
        131941395333121,
        16492674416518,
        13194139533312233,
    );
    let step = amount.product(range).quotient(hundred);
    interval_arithmetic::lemma_negative_quotient(
        amount.product(range),
        hundred,
        16492674416518,
        13194139533312233,
        109951162777599,
        109951162777601,
        164926744164,
        131941395333125,
    );
    let middle = million.quotient(reference);
    interval_arithmetic::lemma_quotient(
        million,
        reference,
        1099511627776000000,
        1099511627776000000,
        7151223627055104,
        7151223627055104,
        169051603286591,
        169051603286595,
    );
    interval_arithmetic::lemma_sum(
        middle,
        step,
        169051603286591,
        169051603286595,
        -131941395333125,
        -164926744164,
    );
    let mired = middle.sum(step);
    interval_arithmetic::lemma_quotient(
        million,
        mired,
        1099511627776000000,
        1099511627776000000,
        37110207953465,
        168886676542432,
        7158207173973791,
        32576638242787110,
    );
    let kelvin = white_balance::target_kelvin(adjustment);
    assert(kelvin == million.quotient(mired));
    wide_bounds::order_is_exact(kelvin, coldest);
    wide_bounds::order_is_exact(hottest, kelvin);
}

/// The temperature of the reference white lies above 4000 kelvin.
proof fn lemma_reference_locus()
    ensures
        ({
            let k = white_balance::number(white_balance::D65_KELVIN);
            white_balance::locus(k) == (Pair {
                x: locus_laws::cold_x(k),
                y: locus_laws::cold_y(locus_laws::cold_x(k)),
            })
        }),
{
    locus_laws::lemma_slider_constants();
    form_arithmetic::lemma_parts();
    locus_laws::lemma_above_the_limit(
        white_balance::number(white_balance::D65_KELVIN),
        7151223627055104,
        7151223627055104,
    );
    locus_laws::lemma_cold_locus(white_balance::number(white_balance::D65_KELVIN));
}

/// The first coordinate of the locus from 4000 kelvin to a temperature below
/// the reference white.
proof fn lemma_warm_x(k: Wide)
    requires
        interval_arithmetic::lies(k, 4398046511103999, 7144253693152295),
    ensures
        interval_arithmetic::lies(locus_laws::cold_x(k), 344682641248, 446770665832),
{
    let v = wide_bounds::exact(k);
    let u = form_arithmetic::part();
    form_arithmetic::lemma_parts();
    if v <= 5727837105422336 * u {
        locus_laws::lemma_cold_x(
            k,
            4398046511103999,
            5727837105422336,
            17592186044415976374,
            29838809410878597000,
            70368744177663826995999,
            155443412700384009220674,
            23532836676,
            51983653914,
            85367096425,
            144794541952,
            46989610949,
            61197360351,
        );
        interval_arithmetic::lemma_wider(
            locus_laws::cold_x(k),
            344684653657,
            446770665832,
            344682641248,
            446770665832,
        );
    } else if v <= 6646066753568768 * u {
        locus_laws::lemma_cold_x(
            k,
            5727837105422336,
            6646066753568768,
            29838809410878543992,
            40172565871118551906,
            155443412700383456955838,
            242825585193343247577757,
            15064411109,
            23532836679,
            63407762609,
            85367096428,
            40497462205,
            46989610952,
        );
        interval_arithmetic::lemma_wider(
            locus_laws::cold_x(k),
            344683988332,
            381603896476,
            344682641248,
            446770665832,
        );
    } else if v <= 7007874798583808 * u {
        locus_laws::lemma_cold_x(
            k,
            6646066753568768,
            7007874798583808,
            40172565871118480542,
            44665566013123762936,
            242825585193342384868707,
            284681568180396196390990,
            12849530325,
            15064411112,
            57029446787,
            63407762612,
            38406627529,
            40497462208,
        );
        interval_arithmetic::lemma_wider(
            locus_laws::cold_x(k),
            344683263401,
            355367294700,
            344682641248,
            446770665832,
        );
    } else if v <= 7111709927931904 * u {
        locus_laws::lemma_cold_x(
            k,
            7007874798583808,
            7111709927931904,
            44665566013123683592,
            45998984295734091673,
            284681568180395184986034,
            297524305361326852576362,
            12294876006,
            12849530328,
            55376277523,
            57029446790,
            37845868278,
            38406627532,
        );
        interval_arithmetic::lemma_wider(
            locus_laws::cold_x(k),
            344684215670,
            347452798521,
            344682641248,
            446770665832,
        );
    } else if v <= 7138441804382208 * u {
        locus_laws::lemma_cold_x(
            k,
            7111709927931904,
            7138441804382208,
            45998984295734009959,
            46345441109725978829,
            297524305361325795535766,
            300891983224757469045697,
            12157267881,
            12294876009,
            54962310405,
            55376277526,
            37704143921,
            37845868281,
        );
        interval_arithmetic::lemma_wider(
            locus_laws::cold_x(k),
            344683178514,
            345376478131,
            344682641248,
            446770665832,
        );
    } else {
        locus_laws::lemma_cold_x(
            k,
            7138441804382208,
            7144253693152295,
            46345441109725896499,
            46420937753391855782,
            300891983224756400036927,
            301627511347999516346997,
            12127622002,
            12157267884,
            54872922509,
            54962310408,
            37673471397,
            37704143924,
        );
        interval_arithmetic::lemma_wider(
            locus_laws::cold_x(k),
            344700726219,
            344850432535,
            344682641248,
            446770665832,
        );
    }
}

/// The first coordinate of the locus from a temperature above the reference
/// white.
proof fn lemma_cool_x(k: Wide)
    requires
        interval_arithmetic::lies(k, 7158207173973791, 27487790694400001),
    ensures
        interval_arithmetic::lies(locus_laws::cold_x(k), 270063876309, 344561694956),
{
    let v = wide_bounds::exact(k);
    let u = form_arithmetic::part();
    form_arithmetic::lemma_parts();
    if v <= 7167647581995008 * u {
        locus_laws::lemma_cold_x(
            k,
            7158207173973791,
            7167647581995008,
            46602444804675362193,
            46725446609051623966,
            303398296387553734009721,
            304600266103994741447241,
            12009262139,
            12056839104,
            54515316707,
            54659203631,
            37550512087,
            37600034568,
        );
        interval_arithmetic::lemma_wider(
            locus_laws::cold_x(k),
            344320589887,
            344561576265,
            270063876309,
            344561694956,
        );
    } else if v <= 7206542805827584 * u {
        locus_laws::lemma_cold_x(
            k,
            7167647581995008,
            7206542805827584,
            46725446609051540962,
            47233933594020848610,
            304600266103993659270583,
            309585961379461048272702,
            11815860212,
            12009262142,
            53928443522,
            54515316710,
            37347844093,
            37550512090,
        );
        interval_arithmetic::lemma_wider(
            locus_laws::cold_x(k),
            343578625670,
            344561568793,
            270063876309,
            344561694956,
        );
    } else if v <= 7374561926447104 * u {
        locus_laws::lemma_cold_x(
            k,
            7206542805827584,
            7374561926447104,
            47233933594020764702,
            49462108660921576349,
            309585961379459948378306,
            331748545552383922421687,
            11026497304,
            11815860215,
            51499068461,
            53928443525,
            36496925491,
            37347844096,
        );
        interval_arithmetic::lemma_wider(
            locus_laws::cold_x(k),
            340491733934,
            344561390522,
            270063876309,
            344561694956,
        );
    } else if v <= 8295746512093184 * u {
        locus_laws::lemma_cold_x(
            k,
            7374561926447104,
            8295746512093184,
            49462108660921488483,
            62590888949586123049,
            331748545552382743789641,
            472244345194068368709252,
            7746041811,
            11026497307,
            40696858007,
            51499068464,
            32444197369,
            36496925494,
        );
        interval_arithmetic::lemma_wider(
            locus_laws::cold_x(k),
            326426158266,
            344561552352,
            270063876309,
            344561694956,
        );
    } else {
        locus_laws::lemma_cold_x(
            k,
            8295746512093184,
            27487790694400001,
            62590888949586011863,
            687194767360000660353,
            472244345194066690943356,
            17179869184000032392614064,
            212925045,
            7746041814,
            3706740272,
            40696858010,
            9791577654,
            32444197372,
        );
        interval_arithmetic::lemma_wider(
            locus_laws::cold_x(k),
            270063876309,
            337239730542,
            270063876309,
            344561694956,
        );
    }
}

/// The locus at warm temperatures.
proof fn lemma_warm_locus(k: Wide)
    requires
        interval_arithmetic::lies(k, 4016458273642446, 7144253693152295),
    ensures
        ({
            let xy = white_balance::locus(k);
            &&& locus_laws::is_known(xy)
            &&& 59843340 * wide_bounds::exact(xy.x) - 36608472 * wide_bounds::exact(xy.y)
                >= 7598373015863565267 * form_arithmetic::part()
            &&& -186484 * wide_bounds::exact(xy.x) + 39351648 * wide_bounds::exact(xy.y)
                >= 13937695266745868219 * form_arithmetic::part()
        }),
{
    let u = form_arithmetic::part();
    form_arithmetic::lemma_parts();
    interval_arithmetic::lemma_wider(
        k,
        4016458273642446,
        7144253693152295,
        4002222325104640,
        27597741857177600,
    );
    locus_laws::lemma_locus(k);
    let xy = white_balance::locus(k);
    if k.at_most(white_balance::number(white_balance::WARM_LIMIT)) {
        locus_laws::lemma_warm_locus(k);
        locus_laws::lemma_warm_x(
            k,
            4016458273642446,
            4398046511104001,
            14671911288961240010,
            17592186044416023627,
            53595721953294127520055,
            70368744177664173008002,
            4571973787,
            6002793549,
            16104959127,
            19310465533,
            241259129460,
            264180230521,
        );
        let end = Wide { bits: 0x3fd8_0000_0000_0000 };
        lemma2_to64();
        form_arithmetic::lemma_exact_constant(
            0x3fd8_0000_0000_0000,
            1020,
            0x18_0000_0000_0000,
            412316860416,
            14,
        );
        interval_arithmetic::lemma_near(end, 412316860416, 0);
        locus_laws::lemma_warm_y(
            end,
            412316860416,
            412316860416,
            154618822654,
            154618822658,
            57982058494,
            57982058498,
            55369827600,
            55369827607,
            212475010603,
            212475010611,
            862307174214,
            862307174218,
        );
        interval_arithmetic::lemma_wider(
            locus_laws::warm_y(end),
            410306595806,
            410306595833,
            410306595806,
            410306595833,
        );
        slope_arithmetic::lemma_warm_rise(
            xy.x,
            end,
            413759007327,
            441316434564,
            412316860416,
            412316860416,
            154618822652,
            154618822660,
            751311,
            776375,
            423352,
            452243,
            404278,
            431869,
            1032441,
            1066884,
            2091370,
            2091371,
            592617,
            654652,
        );
    } else {
        locus_laws::lemma_cold_locus(k);
        lemma_warm_x(k);
        let base = white_balance::locus(white_balance::number(white_balance::D65_KELVIN));
        neutral_laws::lemma_locus_x();
        neutral_laws::lemma_locus_y();
        interval_arithmetic::lemma_near(base.x, 344622168102, 7);
        interval_arithmetic::lemma_near(base.y, 355804020492, 71);
        lemma_reference_locus();
        interval_arithmetic::lemma_wider(
            xy.x,
            344682641248,
            446770665832,
            344622168095,
            446770665832,
        );
        slope_arithmetic::lemma_cold_rise(
            xy.x,
            base.x,
            344622168095,
            446770665832,
            344622168095,
            344622168109,
            108015627791,
            108015627809,
            626864,
            719768,
            294718,
            390707,
            908249,
            1204065,
            3681814,
            4227476,
            3751129,
            3751130,
            431902,
            1273381,
        );
    }
}

/// The locus at cool temperatures.
proof fn lemma_cool_locus(k: Wide)
    requires
        interval_arithmetic::lies(k, 7158207173973791, 27487790694400001),
    ensures
        ({
            let xy = white_balance::locus(k);
            &&& locus_laws::is_known(xy)
            &&& -59843336 * wide_bounds::exact(xy.x) + 36605892 * wide_bounds::exact(xy.y)
                >= -7598340030465697259 * form_arithmetic::part()
            &&& 186486 * wide_bounds::exact(xy.x) - 39354312 * wide_bounds::exact(xy.y)
                >= -13937665579863776963 * form_arithmetic::part()
        }),
{
    let u = form_arithmetic::part();
    form_arithmetic::lemma_parts();
    interval_arithmetic::lemma_wider(
        k,
        7158207173973791,
        27487790694400001,
        4002222325104640,
        27597741857177600,
    );
    locus_laws::lemma_locus(k);
    let xy = white_balance::locus(k);
    locus_laws::lemma_above_the_limit(k, 7158207173973791, 27487790694400001);
    locus_laws::lemma_cold_locus(k);
    lemma_cool_x(k);
    let base = white_balance::locus(white_balance::number(white_balance::D65_KELVIN));
    neutral_laws::lemma_locus_x();
    neutral_laws::lemma_locus_y();
    interval_arithmetic::lemma_near(base.x, 344622168102, 7);
    interval_arithmetic::lemma_near(base.y, 355804020492, 71);
    lemma_reference_locus();
    interval_arithmetic::lemma_wider(xy.x, 270063876309, 344561694956, 270063876309, 344622168109);
    slope_arithmetic::lemma_cold_rise(
        base.x,
        xy.x,
        344622168095,
        344622168109,
        270063876309,
        344622168109,
        66333538855,
        108015627809,
        559053,
        626865,
        235555,
        294720,
        725923,
        908256,
        3283534,
        3681821,
        3751129,
        3751130,
        795231,
        1375852,
    );
}

/// The reference white, moved in the uniform scale as the locus moves to a
/// temperature.
pub open spec fn moved_white(kelvin: Wide) -> Pair {
    let base = white_balance::uniform(
        white_balance::locus(white_balance::number(white_balance::D65_KELVIN)),
    );
    let target = white_balance::uniform(white_balance::locus(kelvin));
    let white = white_balance::uniform(
        Pair {
            x: white_balance::number(white_balance::D65_X),
            y: white_balance::number(white_balance::D65_Y),
        },
    );
    Pair {
        x: white.x.sum(target.x).difference(base.x),
        y: white.y.sum(target.y).difference(base.y),
    }
}

/// How far the reference white is moved.
proof fn lemma_moved_white(k: Wide)
    requires
        interval_arithmetic::lies(k, 4002222325104640, 27597741857177600),
    ensures
        ({
            let target = white_balance::uniform(white_balance::locus(k));
            let moved = moved_white(k);
            let u = form_arithmetic::part();
            &&& locus_laws::is_near_locus(
                moved,
                5497558138,
                2200122767179,
                2196824232296,
                4395847487848,
            )
            &&& -37 * u
                <= wide_bounds::exact(moved.x) - wide_bounds::exact(target.x) + 2817639943 * u
                <= 37 * u
            &&& -117 * u
                <= wide_bounds::exact(moved.y) - wide_bounds::exact(target.y) - 2057469124 * u
                <= 117 * u
        }),
{
    let u = form_arithmetic::part();
    form_arithmetic::lemma_parts();
    locus_laws::lemma_locus(k);
    locus_laws::lemma_uniform(white_balance::locus(k));
    neutral_laws::lemma_base();
    neutral_laws::lemma_reference_white();
    let base = white_balance::uniform(
        white_balance::locus(white_balance::number(white_balance::D65_KELVIN)),
    );
    let target = white_balance::uniform(white_balance::locus(k));
    let white = white_balance::uniform(
        Pair {
            x: white_balance::number(white_balance::D65_X),
            y: white_balance::number(white_balance::D65_Y),
        },
    );
    interval_arithmetic::lemma_sum_agrees(white.x, target.x);
    interval_arithmetic::lemma_sum_agrees(white.y, target.y);
    interval_arithmetic::lemma_sum_agrees(white.x.sum(target.x), base.x);
    interval_arithmetic::lemma_sum_agrees(white.y.sum(target.y), base.y);
}

/// Without a tint, the white is the reference white, moved.
proof fn lemma_no_tint(adjustment: WhiteBalance, length: Wide)
    requires
        adjustment.tint.finite(),
        laws::exact(adjustment.tint) == 0,
    ensures
        white_balance::target_white(adjustment, length) == white_balance::from_uniform(
            moved_white(white_balance::known_kelvin(adjustment)),
        ),
{
    neutral_laws::lemma_no_distance(adjustment);
}

/// A warm white balance makes a neutral color red: behind the matrix it has
/// more red than green, and more green than blue. With less than an eighth of
/// a unit of temperature the rounding of the matrix decides.
pub proof fn a_warm_white_balance_makes_grey_red(
    adjustment: WhiteBalance,
    length: Wide,
    inverse: Matrix,
)
    requires
        adjustment.valid(),
        (Scalar { bits: EIGHTH }).at_most(adjustment.temperature),
        laws::exact(adjustment.tint) == 0,
        white_balance::cat16_values().inverse() == Some(inverse),
    ensures
        ({
            let m = white_balance::adaptation(adjustment, length, inverse).narrowed();
            blue_of_white(m) < green_of_white(m) < red_of_white(m)
        }),
{
    let kelvin = white_balance::known_kelvin(adjustment);
    form_arithmetic::lemma_parts();
    lemma_no_tint(adjustment, length);
    lemma_warm_kelvin(adjustment);
    lemma_warm_locus(kelvin);
    lemma_warm_red_locus(white_balance::locus(kelvin));
    lemma_warm_blue_locus(white_balance::locus(kelvin));
    interval_arithmetic::lemma_wider(
        kelvin,
        4016458273642446,
        7144253693152295,
        4002222325104640,
        27597741857177600,
    );
    lemma_moved_white(kelvin);
    lemma_warm_red_place(moved_white(kelvin), inverse);
    lemma_warm_blue_place(moved_white(kelvin), inverse);
}

/// A cool white balance makes a neutral color blue: behind the matrix it has
/// more blue than green, and more green than red. With less than an eighth of
/// a unit of temperature the rounding of the matrix decides.
pub proof fn a_cool_white_balance_makes_grey_blue(
    adjustment: WhiteBalance,
    length: Wide,
    inverse: Matrix,
)
    requires
        adjustment.valid(),
        adjustment.temperature.at_most(Scalar { bits: MINUS_EIGHTH }),
        laws::exact(adjustment.tint) == 0,
        white_balance::cat16_values().inverse() == Some(inverse),
    ensures
        ({
            let m = white_balance::adaptation(adjustment, length, inverse).narrowed();
            red_of_white(m) < green_of_white(m) < blue_of_white(m)
        }),
{
    let kelvin = white_balance::known_kelvin(adjustment);
    form_arithmetic::lemma_parts();
    lemma_no_tint(adjustment, length);
    lemma_cool_kelvin(adjustment);
    lemma_cool_locus(kelvin);
    lemma_cool_red_locus(white_balance::locus(kelvin));
    lemma_cool_blue_locus(white_balance::locus(kelvin));
    interval_arithmetic::lemma_wider(
        kelvin,
        7158207173973791,
        27487790694400001,
        4002222325104640,
        27597741857177600,
    );
    lemma_moved_white(kelvin);
    lemma_cool_red_place(moved_white(kelvin), inverse);
    lemma_cool_blue_place(moved_white(kelvin), inverse);
}

/// The locus just below the reference white, in mired.
proof fn lemma_before(k: Wide)
    requires
        interval_arithmetic::lies(k, 7155877809982551, 7155877809982905),
    ensures
        ({
            let uv = white_balance::uniform(white_balance::locus(k));
            &&& interval_arithmetic::lies(uv.x, 220310405160, 220310405253)
            &&& interval_arithmetic::lies(uv.y, 341191908797, 341191909104)
        }),
{
    let u = form_arithmetic::part();
    form_arithmetic::lemma_parts();
    interval_arithmetic::lemma_wider(
        k,
        7155877809982551,
        7155877809982905,
        4002222325104640,
        27597741857177600,
    );
    locus_laws::lemma_locus(k);
    locus_laws::lemma_above_the_limit(k, 7155877809982551, 7155877809982905);
    locus_laws::lemma_cold_locus(k);
    let xy = white_balance::locus(k);
    locus_laws::lemma_cold_x(
        k,
        7155877809982551,
        7155877809982905,
        46572119782832146297,
        46572119782836836857,
        303102204741496863539430,
        303102204741542923626327,
        12068617073,
        12068617076,
        54694794483,
        54694794486,
        37612274037,
        37612274040,
    );
    interval_arithmetic::lemma_wider(xy.x, 344550051641, 344550051658, 344550051641, 344550051658);
    locus_laws::lemma_cold_y(
        xy.x,
        344550051641,
        344550051658,
        107970425310,
        107970425324,
        33834308501,
        33834308510,
        104269150896,
        104269150927,
        634152060008,
        634152060093,
        1292452024874,
        1292452024941,
    );
    interval_arithmetic::lemma_wider(xy.y, 355733507638, 355733507829, 355733507638, 355733507829);
    assert(344550051641 * u <= wide_bounds::exact(xy.x) <= 344550051658 * u);
    let uv = white_balance::uniform(xy);
    let (v, w) = (wide_bounds::exact(uv.y), wide_bounds::exact(uv.x));
    let (d, m, n) = locus_laws::lemma_uniform_ratios(xy);
    assert(6878236871664 * u <= d <= 6878236873998 * u);
    assert(1378200206563 * u <= n <= 1378200206633 * u);
    assert(2134401045827 * u <= m <= 2134401046975 * u);
    assert(n * 0x100_0000_0000 >= 220310405162 * d);
    interval_arithmetic::lemma_combined(v, w, d, m, n, 0, 1, 1, 220310405160, u);
    assert(-n * 0x100_0000_0000 >= -220310405251 * d);
    interval_arithmetic::lemma_combined(v, w, d, m, n, 0, -1, 1, -220310405253, u);
    assert(m * 0x100_0000_0000 >= 341191908799 * d);
    interval_arithmetic::lemma_combined(v, w, d, m, n, 1, 0, 1, 341191908797, u);
    assert(-m * 0x100_0000_0000 >= -341191909102 * d);
    interval_arithmetic::lemma_combined(v, w, d, m, n, -1, 0, 1, -341191909104, u);
}

/// The locus just above the reference white, in mired.
proof fn lemma_after(k: Wide)
    requires
        interval_arithmetic::lies(k, 7146575494353377, 7146575494353731),
    ensures
        ({
            let uv = white_balance::uniform(white_balance::locus(k));
            &&& interval_arithmetic::lies(uv.x, 220357671014, 220357671103)
            &&& interval_arithmetic::lies(uv.y, 341257516111, 341257516402)
        }),
{
    let u = form_arithmetic::part();
    form_arithmetic::lemma_parts();
    interval_arithmetic::lemma_wider(
        k,
        7146575494353377,
        7146575494353731,
        4002222325104640,
        27597741857177600,
    );
    locus_laws::lemma_locus(k);
    locus_laws::lemma_above_the_limit(k, 7146575494353377, 7146575494353731);
    locus_laws::lemma_cold_locus(k);
    let xy = white_balance::locus(k);
    locus_laws::lemma_cold_x(
        k,
        7146575494353377,
        7146575494353731,
        46451115209940480316,
        46451115209945164672,
        301921683462520161555460,
        301921683462566100577928,
        12115805666,
        12115805669,
        54837273737,
        54837273740,
        37661231925,
        37661231928,
    );
    interval_arithmetic::lemma_wider(xy.x, 344694300190, 344694300207, 344694300190, 344694300207);
    locus_laws::lemma_cold_y(
        xy.x,
        344694300190,
        344694300207,
        108060849545,
        108060849558,
        33876821281,
        33876821289,
        104400164996,
        104400165023,
        634683156507,
        634683156586,
        1292993119929,
        1292993119996,
    );
    interval_arithmetic::lemma_wider(xy.y, 355874520300, 355874520481, 355874520300, 355874520481);
    assert(344694300190 * u <= wide_bounds::exact(xy.x) <= 344694300207 * u);
    let uv = white_balance::uniform(xy);
    let (v, w) = (wide_bounds::exact(uv.y), wide_bounds::exact(uv.x));
    let (d, m, n) = locus_laws::lemma_uniform_ratios(xy);
    assert(6879640526510 * u <= d <= 6879640528724 * u);
    assert(1378777200759 * u <= n <= 1378777200829 * u);
    assert(2135247121799 * u <= m <= 2135247122887 * u);
    assert(n * 0x100_0000_0000 >= 220357671016 * d);
    interval_arithmetic::lemma_combined(v, w, d, m, n, 0, 1, 1, 220357671014, u);
    assert(-n * 0x100_0000_0000 >= -220357671101 * d);
    interval_arithmetic::lemma_combined(v, w, d, m, n, 0, -1, 1, -220357671103, u);
    assert(m * 0x100_0000_0000 >= 341257516113 * d);
    interval_arithmetic::lemma_combined(v, w, d, m, n, 1, 0, 1, 341257516111, u);
    assert(-m * 0x100_0000_0000 >= -341257516400 * d);
    interval_arithmetic::lemma_combined(v, w, d, m, n, -1, 0, 1, -341257516402, u);
}

/// The tangent of the locus at the reference white points to more of both
/// coordinates.
proof fn lemma_reference_tangent(adjustment: WhiteBalance)
    requires
        adjustment.temperature.finite(),
        laws::exact(adjustment.temperature) == 0,
    ensures
        ({
            let tangent = white_balance::locus_tangent(adjustment);
            &&& interval_arithmetic::lies(tangent.x, 47265760, 0x1000_0000_0000)
            &&& interval_arithmetic::lies(tangent.y, 65607006, 0x1000_0000_0000)
        }),
{
    let u = form_arithmetic::part();
    form_arithmetic::lemma_parts();
    neutral_laws::lemma_unmoved_kelvin(adjustment);
    locus_laws::lemma_slider_constants();
    let kelvin = white_balance::number(white_balance::D65_KELVIN);
    let (million, tenth) = (
        white_balance::number(white_balance::MILLION),
        white_balance::number(white_balance::TENTH),
    );
    let mired = million.quotient(kelvin);
    interval_arithmetic::lemma_quotient(
        million,
        kelvin,
        1099511627776000000,
        1099511627776000000,
        7151223627055104,
        7151223627055104,
        169051603286591,
        169051603286595,
    );
    interval_arithmetic::lemma_sum(
        mired,
        tenth,
        169051603286591,
        169051603286595,
        109951162777,
        109951162779,
    );
    let (first, last) = (
        million.quotient(mired.difference(tenth)),
        million.quotient(mired.sum(tenth)),
    );
    interval_arithmetic::lemma_quotient(
        million,
        mired.difference(tenth),
        1099511627776000000,
        1099511627776000000,
        168941652123811,
        168941652123819,
        7155877809982551,
        7155877809982905,
    );
    interval_arithmetic::lemma_quotient(
        million,
        mired.sum(tenth),
        1099511627776000000,
        1099511627776000000,
        169161554449367,
        169161554449375,
        7146575494353377,
        7146575494353731,
    );
    lemma_before(first);
    lemma_after(last);
    let before = white_balance::uniform(white_balance::locus(first));
    let after = white_balance::uniform(white_balance::locus(last));
    interval_arithmetic::lemma_sum_agrees(after.x, before.x);
    interval_arithmetic::lemma_sum_agrees(after.y, before.y);
}

/// Whether a number can be the length of a tangent that points to more of both
/// coordinates: it is also no more than both together.
pub open spec fn is_near_length_of(length: Wide, tangent: Pair) -> bool {
    &&& locus_laws::is_length_of(length, tangent)
    &&& wide_bounds::exact(length) <= wide_bounds::exact(tangent.x) + wide_bounds::exact(tangent.y)
}

/// The direction across the tangent: `p` and `q` nearly are the coordinates of
/// the tangent over its length.
proof fn lemma_direction(x: int, y: int, l: int, p: int, q: int, b: int, u: int)
    requires
        u >= 0x10_0000_0000_0000,
        b == 0x100_0000_0000 * u,
        u <= x <= l,
        u <= y <= l,
        l <= x + y,
        l <= 16 * b,
        (x * b - p * l) * 0x10_0000_0000_0000 <= x * b + l * 0x10_0000_0000_0000,
        (y * b - q * l) * 0x10_0000_0000_0000 <= y * b + l * 0x10_0000_0000_0000,
    ensures
        p >= 0,
        q >= 0,
        p + q >= b - 2 * u,
{
    let (xb, yb, lb, pl, ql) = (x * b, y * b, l * b, p * l, q * l);
    assert(xb >= 0x1000 * l && yb >= 0x1000 * l) by (nonlinear_arith)
        requires
            xb == x * b,
            yb == y * b,
            x >= u,
            y >= u,
            u >= 0x10_0000_0000_0000,
            l <= 16 * b,
            b > 0,
    ;
    assert(xb + yb >= lb && xb <= lb && yb <= lb) by (nonlinear_arith)
        requires
            xb == x * b,
            yb == y * b,
            lb == l * b,
            x <= l,
            y <= l,
            l <= x + y,
            b > 0,
    ;
    assert(pl > 0 && ql > 0);
    assert(p >= 0 && q >= 0) by (nonlinear_arith)
        requires
            pl == p * l,
            ql == q * l,
            pl > 0,
            ql > 0,
            l > 0,
    ;
    let lu = l * u;
    assert(lb == 0x100_0000_0000 * lu && lu >= l * 0x10_0000_0000_0000) by (nonlinear_arith)
        requires
            lb == l * b,
            lu == l * u,
            b == 0x100_0000_0000 * u,
            u >= 0x10_0000_0000_0000,
            l > 0,
    ;
    assert(pl + ql >= lb - 2 * lu);
    assert(p + q >= b - 2 * u) by (nonlinear_arith)
        requires
            p * l + q * l >= l * b - 2 * (l * u),
            l > 0,
    {
        assert((p + q) * l >= (b - 2 * u) * l);
    }
}

/// How far the tint moves the white across the tangent: `d` is the distance,
/// `p` and `q` the direction, and `across` and `along` nearly are their
/// products with the distance.
proof fn lemma_reach(
    d: int,
    p: int,
    q: int,
    across: int,
    along: int,
    c: int,
    e: int,
    b: int,
    u: int,
)
    requires
        u > 0,
        b > 0,
        0 <= d <= b,
        p >= 0,
        q >= 0,
        p + q >= b - 2 * u,
        0 <= c <= e,
        across * b >= d * q - b * u,
        along * b >= d * p - b * u,
    ensures
        c * across + e * along >= c * d - (3 * c + e) * u,
{
    let (dp, dq, bu, db) = (d * p, d * q, b * u, d * b);
    assert(dp >= 0 && dp + dq >= db - 2 * bu) by (nonlinear_arith)
        requires
            dp == d * p,
            dq == d * q,
            bu == b * u,
            db == d * b,
            0 <= d <= b,
            p >= 0,
            p + q >= b - 2 * u,
            u > 0,
    {
        assert(d * (p + q) >= d * (b - 2 * u));
        assert(d * u <= b * u);
    }
    let (ca, el) = (c * across, e * along);
    assert(ca * b >= c * dq - c * bu) by (nonlinear_arith)
        requires
            ca == c * across,
            across * b >= dq - bu,
            c >= 0,
    {
        assert(c * (across * b) >= c * (dq - bu));
    }
    assert(el * b >= e * dp - e * bu) by (nonlinear_arith)
        requires
            el == e * along,
            along * b >= dp - bu,
            e >= 0,
    {
        assert(e * (along * b) >= e * (dp - bu));
    }
    assert(e * dp >= c * dp && c * (dp + dq) >= c * db - 2 * (c * bu)) by (nonlinear_arith)
        requires
            0 <= c <= e,
            dp >= 0,
            dp + dq >= db - 2 * bu,
    {
        assert(c * (dp + dq) >= c * (db - 2 * bu));
    }
    assert(c * (dp + dq) == c * dp + c * dq) by (nonlinear_arith);
    let total = ca + el;
    let least = c * d - (3 * c + e) * u;
    assert(total * b == ca * b + el * b) by (nonlinear_arith)
        requires
            total == ca + el,
    ;
    assert(least * b == c * db - 3 * (c * bu) - e * bu) by (nonlinear_arith)
        requires
            least == c * d - (3 * c + e) * u,
            db == d * b,
            bu == b * u,
    ;
    assert(total * b >= least * b);
    assert(total >= least) by (nonlinear_arith)
        requires
            total * b >= least * b,
            b > 0,
    ;
}

/// The distance of a tint towards magenta.
proof fn lemma_magenta_distance(adjustment: WhiteBalance)
    requires
        adjustment.valid(),
        (Scalar { bits: EIGHTH }).at_most(adjustment.tint),
    ensures
        interval_arithmetic::lies(
            white_balance::tint_distance(adjustment),
            -21990232559,
            -27487789,
        ),
        !white_balance::tint_distance(adjustment).size().below(
            white_balance::number(white_balance::EPSILON),
        ),
{
    let u = form_arithmetic::part();
    form_arithmetic::lemma_parts();
    locus_laws::lemma_slider_constants();
    lemma_amount(adjustment.tint);
    let amount = adjustment.tint.widened();
    let (range, hundred) = (
        white_balance::number(white_balance::TINT_RANGE),
        white_balance::number(white_balance::HUNDRED),
    );
    interval_arithmetic::lemma_negated(amount, 137438953471, 109951162777601);
    interval_arithmetic::lemma_negative_product(
        amount.negated(),
        range,
        137438953471,
        109951162777601,
        21990232555,
        21990232557,
        2748779068,
        2199023255702,
    );
    interval_arithmetic::lemma_negative_quotient(
        amount.negated().product(range),
        hundred,
        2748779068,
        2199023255702,
        109951162777599,
        109951162777601,
        27487789,
        21990232559,
    );
    let distance = white_balance::tint_distance(adjustment);
    lemma_epsilon();
    wide_bounds::order_is_exact(distance.size(), white_balance::number(white_balance::EPSILON));
}

/// The distance of a tint towards green.
proof fn lemma_green_distance(adjustment: WhiteBalance)
    requires
        adjustment.valid(),
        adjustment.tint.at_most(Scalar { bits: MINUS_EIGHTH }),
    ensures
        interval_arithmetic::lies(
            white_balance::tint_distance(adjustment),
            27487789,
            21990232559,
        ),
        !white_balance::tint_distance(adjustment).size().below(
            white_balance::number(white_balance::EPSILON),
        ),
{
    let u = form_arithmetic::part();
    form_arithmetic::lemma_parts();
    locus_laws::lemma_slider_constants();
    lemma_negative_amount(adjustment.tint);
    let amount = adjustment.tint.widened();
    let (range, hundred) = (
        white_balance::number(white_balance::TINT_RANGE),
        white_balance::number(white_balance::HUNDRED),
    );
    interval_arithmetic::lemma_negated(amount, -109951162777601, -137438953471);
    interval_arithmetic::lemma_product(
        amount.negated(),
        range,
        137438953471,
        109951162777601,
        21990232555,
        21990232557,
        2748779068,
        2199023255702,
    );
    interval_arithmetic::lemma_quotient(
        amount.negated().product(range),
        hundred,
        2748779068,
        2199023255702,
        109951162777599,
        109951162777601,
        27487789,
        21990232559,
    );
    let distance = white_balance::tint_distance(adjustment);
    lemma_epsilon();
    wide_bounds::order_is_exact(distance.size(), white_balance::number(white_balance::EPSILON));
}

proof fn lemma_epsilon()
    ensures
        ({
            let epsilon = white_balance::number(white_balance::EPSILON);
            epsilon.finite() && wide_bounds::exact(epsilon) <= form_arithmetic::part()
        }),
{
    lemma2_to64();
    lemma2_to64_rest();
    rounding::lemma_encode(970, 0x10_0000_0000_0000, 53);
    lemma_pow2_adds(52, 970);
    lemma_pow2_adds(1022, 12);
    lemma_pow2_pos(1022);
}

/// Where the tint moves the reference white: `across` and `along` are how far
/// it moves the coordinates.
proof fn lemma_tinted(adjustment: WhiteBalance, length: Wide) -> (moves: (int, int))
    requires
        adjustment.valid(),
        laws::exact(adjustment.temperature) == 0,
        is_near_length_of(length, white_balance::locus_tangent(adjustment)),
        !white_balance::tint_distance(adjustment).size().below(
            white_balance::number(white_balance::EPSILON),
        ),
        interval_arithmetic::lies(
            white_balance::tint_distance(adjustment),
            -21990232559,
            21990232559,
        ),
    ensures
        ({
            let (across, along) = moves;
            let u = form_arithmetic::part();
            let b = wide_bounds::one();
            let d = wide_bounds::exact(white_balance::tint_distance(adjustment));
            let tangent = white_balance::locus_tangent(adjustment);
            let p = wide_bounds::exact(tangent.x.quotient(length));
            let q = -wide_bounds::exact(tangent.y.negated().quotient(length));
            let place = tinted_white(adjustment, length);
            &&& white_balance::target_white(adjustment, length) == white_balance::from_uniform(
                place,
            )
            &&& locus_laws::is_near_locus(
                place,
                5497558138,
                2200122767179,
                2196824232296,
                4395847487848,
            )
            &&& -5 * u <= wide_bounds::exact(place.x) - 217516392627 * u - across <= 5 * u
            &&& -6 * u <= wide_bounds::exact(place.y) - 343282186637 * u - along <= 6 * u
            &&& p >= 0 && q >= 0 && p + q >= b - 2 * u
            &&& -(b * u) <= across * b + d * q <= b * u
            &&& -(b * u) <= along * b - d * p <= b * u
        }),
{
    let (u, b) = (form_arithmetic::part(), wide_bounds::one());
    form_arithmetic::lemma_parts();
    neutral_laws::lemma_unmoved_kelvin(adjustment);
    neutral_laws::lemma_base();
    neutral_laws::lemma_reference_white();
    let kelvin = white_balance::number(white_balance::D65_KELVIN);
    let base = white_balance::uniform(white_balance::locus(kelvin));
    let white = white_balance::uniform(
        Pair {
            x: white_balance::number(white_balance::D65_X),
            y: white_balance::number(white_balance::D65_Y),
        },
    );
    neutral_laws::lemma_there_and_back(white.x, base.x, 217516392627, 220334032570, 2, 33);
    neutral_laws::lemma_there_and_back(white.y, base.y, 343282186637, 341224717513, 3, 112);
    let tangent = white_balance::locus_tangent(adjustment);
    lemma_reference_tangent(adjustment);
    let distance = white_balance::tint_distance(adjustment);
    let turned = tangent.y.negated();
    wide_bounds::negation_is_exact(tangent.y);
    let (first, second) = (turned.quotient(length), tangent.x.quotient(length));
    let (x, y, l) = (
        wide_bounds::exact(tangent.x),
        wide_bounds::exact(tangent.y),
        wide_bounds::exact(length),
    );
    interval_arithmetic::lemma_moderate(tangent.x, 47265760, 0x1000_0000_0000);
    interval_arithmetic::lemma_moderate(tangent.y, 65607006, 0x1000_0000_0000);
    interval_arithmetic::lemma_moderate(length, 1, 0x1000_0000_0000);
    interval_arithmetic::lemma_divisor(l, 1, u);
    wide_bounds::a_quotient_is_close(turned, length);
    wide_bounds::a_quotient_is_close(tangent.x, length);
    let (p, q) = (wide_bounds::exact(second), -wide_bounds::exact(first));
    assert((-y) * b == -(y * b) && (-q) * l == -(q * l)) by (nonlinear_arith);
    assert(x * b >= 0 && y * b >= 0) by (nonlinear_arith)
        requires
            x >= 0,
            y >= 0,
            b > 0,
    ;
    lemma_direction(x, y, l, p, q, b, u);
    locus_laws::lemma_direction(tangent.x, length);
    locus_laws::lemma_direction(turned, length);
    slope_arithmetic::lemma_product_agrees(distance, first);
    slope_arithmetic::lemma_product_agrees(distance, second);
    let d = wide_bounds::exact(distance);
    let (across, along) = (
        wide_bounds::exact(distance.product(first)),
        wide_bounds::exact(distance.product(second)),
    );
    assert(d * (-q) == -(d * q)) by (nonlinear_arith);
    locus_laws::lemma_tint(adjustment, turned, length);
    locus_laws::lemma_tint(adjustment, tangent.x, length);
    let moved = moved_white(kelvin);
    interval_arithmetic::lemma_sum_agrees(moved.x, distance.product(first));
    interval_arithmetic::lemma_sum_agrees(moved.y, distance.product(second));
    (across, along)
}

/// The place of the white in the uniform scale, moved by the tint.
pub open spec fn tinted_white(adjustment: WhiteBalance, length: Wide) -> Pair {
    let moved = moved_white(white_balance::known_kelvin(adjustment));
    let distance = white_balance::tint_distance(adjustment);
    let tangent = white_balance::locus_tangent(adjustment);
    Pair {
        x: moved.x.sum(distance.product(tangent.y.negated().quotient(length))),
        y: moved.y.sum(distance.product(tangent.x.quotient(length))),
    }
}

/// A tint towards magenta takes green from a neutral color: behind the matrix
/// it has less green than the mean of red and blue.
/// `length` is the length of the locus's tangent. With less than an eighth of
/// a unit of tint the rounding of the matrix decides.
pub proof fn a_magenta_tint_takes_green_from_grey(
    adjustment: WhiteBalance,
    length: Wide,
    inverse: Matrix,
)
    requires
        adjustment.valid(),
        laws::exact(adjustment.temperature) == 0,
        (Scalar { bits: EIGHTH }).at_most(adjustment.tint),
        is_near_length_of(length, white_balance::locus_tangent(adjustment)),
        white_balance::cat16_values().inverse() == Some(inverse),
    ensures
        ({
            let m = white_balance::adaptation(adjustment, length, inverse).narrowed();
            2 * green_of_white(m) < red_of_white(m) + blue_of_white(m)
        }),
{
    let (u, b) = (form_arithmetic::part(), wide_bounds::one());
    form_arithmetic::lemma_parts();
    lemma_magenta_distance(adjustment);
    let distance = white_balance::tint_distance(adjustment);
    interval_arithmetic::lemma_wider(distance, -21990232559, -27487789, -21990232559, 21990232559);
    let (across, along) = lemma_tinted(adjustment, length);
    let d = wide_bounds::exact(distance);
    let tangent = white_balance::locus_tangent(adjustment);
    let p = wide_bounds::exact(tangent.x.quotient(length));
    let q = -wide_bounds::exact(tangent.y.negated().quotient(length));
    assert((-d) * q == -(d * q) && (-d) * p == -(d * p)) by (nonlinear_arith);
    assert((-across) * b == -(across * b) && (-along) * b == -(along * b)) by (nonlinear_arith);
    lemma_reach(-d, p, q, across, -along, 15968384, 16504168, b, u);
    assert(15968384 * (across) + 16504168 * (-along) >= 15968384 * (-d) - 64409320 * u);
    lemma_magenta_place(tinted_white(adjustment, length), inverse);
}

/// A tint towards green gives green to a neutral color: behind the matrix it
/// has more green than the mean of red and blue.
/// `length` is the length of the locus's tangent. With less than an eighth of
/// a unit of tint the rounding of the matrix decides.
pub proof fn a_green_tint_gives_green_to_grey(
    adjustment: WhiteBalance,
    length: Wide,
    inverse: Matrix,
)
    requires
        adjustment.valid(),
        laws::exact(adjustment.temperature) == 0,
        adjustment.tint.at_most(Scalar { bits: MINUS_EIGHTH }),
        is_near_length_of(length, white_balance::locus_tangent(adjustment)),
        white_balance::cat16_values().inverse() == Some(inverse),
    ensures
        ({
            let m = white_balance::adaptation(adjustment, length, inverse).narrowed();
            red_of_white(m) + blue_of_white(m) < 2 * green_of_white(m)
        }),
{
    let (u, b) = (form_arithmetic::part(), wide_bounds::one());
    form_arithmetic::lemma_parts();
    lemma_green_distance(adjustment);
    let distance = white_balance::tint_distance(adjustment);
    interval_arithmetic::lemma_wider(distance, 27487789, 21990232559, -21990232559, 21990232559);
    let (across, along) = lemma_tinted(adjustment, length);
    let d = wide_bounds::exact(distance);
    let tangent = white_balance::locus_tangent(adjustment);
    let p = wide_bounds::exact(tangent.x.quotient(length));
    let q = -wide_bounds::exact(tangent.y.negated().quotient(length));
    assert((-d) * q == -(d * q) && (-d) * p == -(d * p)) by (nonlinear_arith);
    assert((-across) * b == -(across * b) && (-along) * b == -(along * b)) by (nonlinear_arith);
    lemma_reach(d, p, q, -across, along, 15968388, 16503328, b, u);
    assert(15968388 * (-across) + 16503328 * (along) >= 15968388 * (d) - 64408492 * u);
    lemma_green_place(tinted_white(adjustment, length), inverse);
}

} // verus!
