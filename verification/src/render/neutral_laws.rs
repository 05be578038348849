//! Leaving the white as it is leaves the colors as they are.

use vstd::arithmetic::power2::*;
use vstd::prelude::*;

use crate::document::curve_laws;
use crate::document::values::WhiteBalance;
use crate::number::binary::Format;
use crate::number::bounds;
use crate::number::constants;
use crate::number::laws;
use crate::number::rounding;
use crate::number::scalar::Scalar;
use crate::number::wide::Wide;
use crate::number::wide_bounds;
use crate::render::adaptation_laws;
use crate::render::adaptation_laws::FormRows;
use crate::render::form_arithmetic;
use crate::render::form_arithmetic::Form;
use crate::render::white_balance;
use crate::render::white_balance::{Matrix, NarrowTriple, Pair, Triple};

verus! {

/// The first coordinate of the locus at the temperature of the reference white.
pub proof fn lemma_locus_x()
    ensures
        form_arithmetic::is_near(
            white_balance::locus(white_balance::number(white_balance::D65_KELVIN)).x,
            344622168102,
            7,
        ),
{
    lemma2_to64();
    let kelvin = white_balance::number(white_balance::D65_KELVIN);
    form_arithmetic::lemma_large_constant(0x40b9680000000000, 1034, 7151223627055104, 0);
    let square = kelvin.product(kelvin);
    form_arithmetic::lemma_large_product(
        kelvin,
        kelvin,
        7151223627055104,
        7151223627055104,
        7151223627055104,
        7151223627055104,
        0,
        0,
        46511558470366396416,
        10328,
    );
    let cube = kelvin.product(square);
    form_arithmetic::lemma_large_product(
        kelvin,
        square,
        7151223627055104,
        46511558470366396416,
        7151223627055104,
        46511558470366396416,
        0,
        10328,
        302511176291263042289664,
        134344287,
    );
    let c3 = white_balance::number(white_balance::CX3);
    form_arithmetic::lemma_large_constant(0xc1e68b584e800000, 1053, 6345660878028800, 19);
    let c2 = white_balance::number(white_balance::CX2);
    form_arithmetic::lemma_large_constant(0x4140134ef3333333, 1043, 4524829435966259, 9);
    let c1 = white_balance::number(white_balance::CX1);
    form_arithmetic::lemma_constant(0x406bd44f765fd8ae, 1029, 7833262124685486, 244789441396421, 5);
    let c0 = white_balance::number(white_balance::CX0);
    form_arithmetic::lemma_constant(0x3fcec5197a24894c, 1019, 8660962515388748, 264311600201, 15);
    let third = c3.quotient(cube);
    form_arithmetic::lemma_large_quotient(
        c3,
        cube,
        -3326953850419963494400,
        302511176291263042289664,
        0,
        134344287,
        -12092196025,
        1,
    );
    let second = c2.quotient(square);
    form_arithmetic::lemma_large_quotient(
        c2,
        square,
        2316712671214724608,
        46511558470366396416,
        0,
        10328,
        54766010944,
        1,
    );
    let first = c1.quotient(kelvin);
    form_arithmetic::lemma_large_quotient(
        c1,
        kelvin,
        244789441396421,
        7151223627055104,
        1,
        0,
        37636752982,
        1,
    );
    let two_terms = third.sum(second);
    form_arithmetic::lemma_near_sum(third, second, -12092196025, 54766010944, 1, 1);
    let three_terms = two_terms.sum(first);
    form_arithmetic::lemma_near_sum(two_terms, first, 42673814919, 37636752982, 3, 1);
    let x = three_terms.sum(c0);
    form_arithmetic::lemma_near_sum(three_terms, c0, 80310567901, 264311600201, 5, 1);
}

/// The second coordinate of the locus there.
pub proof fn lemma_locus_y()
    ensures
        form_arithmetic::is_near(
            white_balance::locus(white_balance::number(white_balance::D65_KELVIN)).y,
            355804020492,
            71,
        ),
{
    let kelvin = white_balance::number(white_balance::D65_KELVIN);
    let x = white_balance::locus(kelvin).x;
    lemma2_to64();
    lemma_locus_x();
    let c3 = white_balance::number(white_balance::CY3);
    form_arithmetic::lemma_constant(0x4008a770bd017daf, 1023, 6939502090223023, 3388428754992, 11);
    let c2 = white_balance::number(white_balance::CY2);
    form_arithmetic::lemma_constant(0x40177e5915450ba3, 1024, 6612845538380707, 6457856971075, 10);
    let c1 = white_balance::number(white_balance::CY1);
    form_arithmetic::lemma_constant(0x400e02506e01904e, 1023, 8446793767555150, 4124411019314, 11);
    let c0 = white_balance::number(white_balance::CY0);
    form_arithmetic::lemma_constant(0x3fd7ae52ae78a3d6, 1020, 6665594602038230, 406835608035, 14);
    let square = x.product(x);
    form_arithmetic::lemma_large_product(
        x,
        x,
        344622168102,
        344622168102,
        344622168102,
        344622168102,
        7,
        7,
        108015627800,
        5,
    );
    let cube = x.product(square);
    form_arithmetic::lemma_large_product(
        x,
        square,
        344622168102,
        108015627800,
        344622168102,
        108015627800,
        7,
        5,
        33855558141,
        3,
    );
    let third = c3.product(cube);
    form_arithmetic::lemma_large_product(
        c3,
        cube,
        3388428754992,
        33855558141,
        3388428754992,
        33855558141,
        1,
        3,
        104334637146,
        10,
    );
    let second = c2.product(square);
    form_arithmetic::lemma_large_product(
        c2,
        square,
        6457856971075,
        108015627800,
        6457856971075,
        108015627800,
        1,
        5,
        634417551713,
        30,
    );
    let first = c1.product(x);
    form_arithmetic::lemma_large_product(
        c1,
        x,
        4124411019314,
        344622168102,
        4124411019314,
        344622168102,
        1,
        7,
        1292722543094,
        27,
    );
    let two_terms = third.difference(second);
    form_arithmetic::lemma_near_sum(third, second, 104334637146, 634417551713, 10, 30);
    let three_terms = two_terms.sum(first);
    form_arithmetic::lemma_near_sum(two_terms, first, -530082914567, 1292722543094, 41, 27);
    let y = three_terms.difference(c0);
    form_arithmetic::lemma_near_sum(three_terms, c0, 762639628527, 406835608035, 69, 1);
}

/// The locus there, in the uniform scale.
pub proof fn lemma_base()
    ensures
        ({
            let base = white_balance::uniform(
                white_balance::locus(white_balance::number(white_balance::D65_KELVIN)),
            );
            &&& form_arithmetic::is_near(base.x, 220334032570, 33)
            &&& form_arithmetic::is_near(base.y, 341224717513, 112)
        }),
{
    let xy = white_balance::locus(white_balance::number(white_balance::D65_KELVIN));
    lemma2_to64();
    lemma_locus_x();
    lemma_locus_y();
    let minus_two = white_balance::number(white_balance::MINUS_TWO);
    form_arithmetic::lemma_constant(0xc000000000000000, 1023, 4503599627370496, -2199023255552, 11);
    let twelve = white_balance::number(white_balance::TWELVE);
    form_arithmetic::lemma_constant(0x4028000000000000, 1025, 6755399441055744, 13194139533312, 9);
    let three = white_balance::number(white_balance::THREE);
    form_arithmetic::lemma_constant(0x4008000000000000, 1023, 6755399441055744, 3298534883328, 11);
    let four = white_balance::number(white_balance::FOUR);
    form_arithmetic::lemma_constant(0x4010000000000000, 1024, 4503599627370496, 4398046511104, 10);
    let six = white_balance::number(white_balance::SIX);
    form_arithmetic::lemma_constant(0x4018000000000000, 1024, 6755399441055744, 6597069766656, 10);
    let doubled = minus_two.product(xy.x);
    form_arithmetic::lemma_large_product(
        minus_two,
        xy.x,
        -2199023255552,
        344622168102,
        2199023255552,
        344622168102,
        1,
        7,
        -689244336204,
        15,
    );
    let dozen = twelve.product(xy.y);
    form_arithmetic::lemma_large_product(
        twelve,
        xy.y,
        13194139533312,
        355804020492,
        13194139533312,
        355804020492,
        1,
        71,
        4269648245904,
        853,
    );
    let both = doubled.sum(dozen);
    form_arithmetic::lemma_near_sum(doubled, dozen, -689244336204, 4269648245904, 15, 853);
    let denominator = both.sum(three);
    form_arithmetic::lemma_near_sum(both, three, 3580403909700, 3298534883328, 869, 1);
    let top = four.product(xy.x);
    form_arithmetic::lemma_large_product(
        four,
        xy.x,
        4398046511104,
        344622168102,
        4398046511104,
        344622168102,
        1,
        7,
        1378488672408,
        29,
    );
    let u = top.quotient(denominator);
    form_arithmetic::lemma_large_quotient(
        top,
        denominator,
        1378488672408,
        6878938793028,
        29,
        871,
        220334032570,
        33,
    );
    let other_top = six.product(xy.y);
    form_arithmetic::lemma_large_product(
        six,
        xy.y,
        6597069766656,
        355804020492,
        6597069766656,
        355804020492,
        1,
        71,
        2134824122952,
        427,
    );
    let v = other_top.quotient(denominator);
    form_arithmetic::lemma_large_quotient(
        other_top,
        denominator,
        2134824122952,
        6878938793028,
        427,
        871,
        341224717513,
        112,
    );
}

/// The reference white, in the uniform scale.
pub proof fn lemma_reference_white()
    ensures
        ({
            let white = white_balance::uniform(
                Pair {
                    x: white_balance::number(white_balance::D65_X),
                    y: white_balance::number(white_balance::D65_Y),
                },
            );
            &&& form_arithmetic::is_near(white.x, 217516392627, 2)
            &&& form_arithmetic::is_near(white.y, 343282186637, 3)
        }),
{
    lemma2_to64();
    let x = white_balance::number(white_balance::D65_X);
    form_arithmetic::lemma_constant(0x3fd40346dc5d6388, 1020, 5633102413915016, 343817286006, 14);
    let y = white_balance::number(white_balance::D65_Y);
    form_arithmetic::lemma_constant(0x3fd50e5604189375, 1020, 5926737109619573, 361739325538, 14);
    let minus_two = white_balance::number(white_balance::MINUS_TWO);
    form_arithmetic::lemma_constant(0xc000000000000000, 1023, 4503599627370496, -2199023255552, 11);
    let twelve = white_balance::number(white_balance::TWELVE);
    form_arithmetic::lemma_constant(0x4028000000000000, 1025, 6755399441055744, 13194139533312, 9);
    let three = white_balance::number(white_balance::THREE);
    form_arithmetic::lemma_constant(0x4008000000000000, 1023, 6755399441055744, 3298534883328, 11);
    let four = white_balance::number(white_balance::FOUR);
    form_arithmetic::lemma_constant(0x4010000000000000, 1024, 4503599627370496, 4398046511104, 10);
    let six = white_balance::number(white_balance::SIX);
    form_arithmetic::lemma_constant(0x4018000000000000, 1024, 6755399441055744, 6597069766656, 10);
    let doubled = minus_two.product(x);
    form_arithmetic::lemma_large_product(
        minus_two,
        x,
        -2199023255552,
        343817286006,
        2199023255552,
        343817286006,
        1,
        1,
        -687634572012,
        3,
    );
    let dozen = twelve.product(y);
    form_arithmetic::lemma_large_product(
        twelve,
        y,
        13194139533312,
        361739325538,
        13194139533312,
        361739325538,
        1,
        1,
        4340871906456,
        13,
    );
    let both = doubled.sum(dozen);
    form_arithmetic::lemma_near_sum(doubled, dozen, -687634572012, 4340871906456, 3, 13);
    let denominator = both.sum(three);
    form_arithmetic::lemma_near_sum(both, three, 3653237334444, 3298534883328, 17, 1);
    let top = four.product(x);
    form_arithmetic::lemma_large_product(
        four,
        x,
        4398046511104,
        343817286006,
        4398046511104,
        343817286006,
        1,
        1,
        1375269144024,
        5,
    );
    let u = top.quotient(denominator);
    form_arithmetic::lemma_large_quotient(
        top,
        denominator,
        1375269144024,
        6951772217772,
        5,
        19,
        217516392627,
        2,
    );
    let other_top = six.product(y);
    form_arithmetic::lemma_large_product(
        six,
        y,
        6597069766656,
        361739325538,
        6597069766656,
        361739325538,
        1,
        1,
        2170435953228,
        7,
    );
    let v = other_top.quotient(denominator);
    form_arithmetic::lemma_large_quotient(
        other_top,
        denominator,
        2170435953228,
        6951772217772,
        7,
        19,
        343282186637,
        3,
    );
}

/// What lies in the uniform scale where the reference white does is the
/// reference white.
proof fn lemma_back(shifted: Pair)
    requires
        form_arithmetic::is_near(shifted.x, 217516392627, 4),
        form_arithmetic::is_near(shifted.y, 343282186637, 5),
    ensures
        form_arithmetic::is_near(white_balance::from_uniform(shifted).x, 343817286006, 16),
        form_arithmetic::is_near(white_balance::from_uniform(shifted).y, 361739325539, 16),
{
    lemma2_to64();
    let two = white_balance::number(white_balance::TWO);
    form_arithmetic::lemma_constant(0x4000000000000000, 1023, 4503599627370496, 2199023255552, 11);
    let eight = white_balance::number(white_balance::EIGHT);
    form_arithmetic::lemma_constant(0x4020000000000000, 1025, 4503599627370496, 8796093022208, 9);
    let four = white_balance::number(white_balance::FOUR);
    form_arithmetic::lemma_constant(0x4010000000000000, 1024, 4503599627370496, 4398046511104, 10);
    let three = white_balance::number(white_balance::THREE);
    form_arithmetic::lemma_constant(0x4008000000000000, 1023, 6755399441055744, 3298534883328, 11);
    let doubled = two.product(shifted.x);
    form_arithmetic::lemma_large_product(
        two,
        shifted.x,
        2199023255552,
        217516392627,
        2199023255552,
        217516392627,
        1,
        4,
        435032785254,
        9,
    );
    let eightfold = eight.product(shifted.y);
    form_arithmetic::lemma_large_product(
        eight,
        shifted.y,
        8796093022208,
        343282186637,
        8796093022208,
        343282186637,
        1,
        5,
        2746257493096,
        41,
    );
    let both = doubled.difference(eightfold);
    form_arithmetic::lemma_near_sum(doubled, eightfold, 435032785254, 2746257493096, 9, 41);
    let denominator = both.sum(four);
    form_arithmetic::lemma_near_sum(both, four, -2311224707842, 4398046511104, 51, 1);
    let top = three.product(shifted.x);
    form_arithmetic::lemma_large_product(
        three,
        shifted.x,
        3298534883328,
        217516392627,
        3298534883328,
        217516392627,
        1,
        4,
        652549177881,
        13,
    );
    let x = top.quotient(denominator);
    form_arithmetic::lemma_large_quotient(
        top,
        denominator,
        652549177881,
        2086821803262,
        13,
        53,
        343817286006,
        16,
    );
    let other_top = two.product(shifted.y);
    form_arithmetic::lemma_large_product(
        two,
        shifted.y,
        2199023255552,
        343282186637,
        2199023255552,
        343282186637,
        1,
        5,
        686564373274,
        11,
    );
    let y = other_top.quotient(denominator);
    form_arithmetic::lemma_large_quotient(
        other_top,
        denominator,
        686564373274,
        2086821803262,
        11,
        53,
        361739325539,
        16,
    );
}

/// The tristimulus values of a white near the reference white.
proof fn lemma_tristimulus(white: Pair)
    requires
        form_arithmetic::is_near(white.x, 343817286006, 16),
        form_arithmetic::is_near(white.y, 361739325539, 16),
    ensures
        form_arithmetic::is_near(white_balance::tristimulus(white).a, 1045037343481, 96),
        form_arithmetic::is_near(white_balance::tristimulus(white).b, 1099511627776, 1),
        form_arithmetic::is_near(white_balance::tristimulus(white).c, 1197431660274, 160),
{
    lemma2_to64();
    let one = white_balance::number(white_balance::ONE);
    form_arithmetic::lemma_constant(0x3ff0000000000000, 1022, 4503599627370496, 1099511627776, 12);
    let first = white.x.quotient(white.y);
    form_arithmetic::lemma_large_quotient(
        white.x,
        white.y,
        343817286006,
        361739325539,
        16,
        16,
        1045037343481,
        96,
    );
    let rest = one.difference(white.x);
    form_arithmetic::lemma_near_sum(one, white.x, 1099511627776, 343817286006, 1, 16);
    let last = rest.difference(white.y);
    form_arithmetic::lemma_near_sum(rest, white.y, 755694341770, 361739325539, 18, 16);
    let third = last.quotient(white.y);
    form_arithmetic::lemma_large_quotient(
        last,
        white.y,
        393955016231,
        361739325539,
        35,
        16,
        1197431660274,
        160,
    );
}

proof fn lemma_gain_a(xyz: Triple, source: Wide)
    requires
        form_arithmetic::is_near(xyz.a, 1045037343481, 96),
        form_arithmetic::is_near(xyz.b, 1099511627776, 1),
        form_arithmetic::is_near(xyz.c, 1197431660274, 160),
        form_arithmetic::is_near(source, 1072612688388, 60),
    ensures
        form_arithmetic::is_near(
            white_balance::cat16_values().first.dot(xyz).quotient(source),
            1099511627776,
            117,
        ),
{
    let row = white_balance::cat16_values().first;
    adaptation_laws::lemma_cat16();
    let first = row.a.product(xyz.a);
    form_arithmetic::lemma_large_product(
        row.a,
        xyz.a,
        441220822087,
        1045037343481,
        441220822087,
        1045037343481,
        1,
        96,
        419360945491,
        40,
    );
    let second = row.b.product(xyz.b);
    form_arithmetic::lemma_large_product(
        row.b,
        xyz.b,
        714872773566,
        1099511627776,
        714872773566,
        1099511627776,
        1,
        1,
        714872773566,
        2,
    );
    let third = row.c.product(xyz.c);
    form_arithmetic::lemma_large_product(
        row.c,
        xyz.c,
        -56581967877,
        1197431660274,
        56581967877,
        1197431660274,
        1,
        160,
        -61621030669,
        10,
    );
    let both = first.sum(second);
    form_arithmetic::lemma_near_sum(first, second, 419360945491, 714872773566, 40, 2);
    let cone = both.sum(third);
    form_arithmetic::lemma_near_sum(both, third, 1134233719057, -61621030669, 43, 10);
    let gain = cone.quotient(source);
    form_arithmetic::lemma_large_quotient(
        cone,
        source,
        1072612688388,
        1072612688388,
        54,
        60,
        1099511627776,
        117,
    );
}

proof fn lemma_gain_b(xyz: Triple, source: Wide)
    requires
        form_arithmetic::is_near(xyz.a, 1045037343481, 96),
        form_arithmetic::is_near(xyz.b, 1099511627776, 1),
        form_arithmetic::is_near(xyz.c, 1197431660274, 160),
        form_arithmetic::is_near(source, 1117634823127, 60),
    ensures
        form_arithmetic::is_near(
            white_balance::cat16_values().second.dot(xyz).quotient(source),
            1099511627777,
            99,
        ),
{
    let row = white_balance::cat16_values().second;
    adaptation_laws::lemma_cat16();
    let first = row.a.product(xyz.a);
    form_arithmetic::lemma_large_product(
        row.a,
        xyz.a,
        -275172576060,
        1045037343481,
        275172576060,
        1045037343481,
        1,
        96,
        -261539405878,
        26,
    );
    let second = row.b.product(xyz.b);
    form_arithmetic::lemma_large_product(
        row.b,
        xyz.b,
        1324267197656,
        1099511627776,
        1324267197656,
        1099511627776,
        1,
        1,
        1324267197656,
        3,
    );
    let third = row.c.product(xyz.c);
    form_arithmetic::lemma_large_product(
        row.c,
        xyz.c,
        50417006180,
        1197431660274,
        50417006180,
        1197431660274,
        1,
        160,
        54907031350,
        9,
    );
    let both = first.sum(second);
    form_arithmetic::lemma_near_sum(first, second, -261539405878, 1324267197656, 26, 3);
    let cone = both.sum(third);
    form_arithmetic::lemma_near_sum(both, third, 1062727791778, 54907031350, 30, 9);
    let gain = cone.quotient(source);
    form_arithmetic::lemma_large_quotient(
        cone,
        source,
        1117634823128,
        1117634823127,
        40,
        60,
        1099511627777,
        99,
    );
}

proof fn lemma_gain_c(xyz: Triple, source: Wide)
    requires
        form_arithmetic::is_near(xyz.a, 1045037343481, 96),
        form_arithmetic::is_near(xyz.b, 1099511627776, 1),
        form_arithmetic::is_near(xyz.c, 1197431660274, 160),
        form_arithmetic::is_near(source, 1192955106634, 60),
    ensures
        form_arithmetic::is_near(
            white_balance::cat16_values().third.dot(xyz).quotient(source),
            1099511627770,
            204,
        ),
{
    let row = white_balance::cat16_values().third;
    adaptation_laws::lemma_cat16();
    let first = row.a.product(xyz.a);
    form_arithmetic::lemma_large_product(
        row.a,
        xyz.a,
        -2285884674,
        1045037343481,
        2285884674,
        1045037343481,
        1,
        96,
        -2172632637,
        2,
    );
    let second = row.b.product(xyz.b);
    form_arithmetic::lemma_large_product(
        row.b,
        xyz.b,
        53823293203,
        1099511627776,
        53823293203,
        1099511627776,
        1,
        1,
        53823293203,
        2,
    );
    let third = row.c.product(xyz.c);
    form_arithmetic::lemma_large_product(
        row.c,
        xyz.c,
        1047974219247,
        1197431660274,
        1047974219247,
        1197431660274,
        1,
        160,
        1141304446062,
        154,
    );
    let both = first.sum(second);
    form_arithmetic::lemma_near_sum(first, second, -2172632637, 53823293203, 2, 2);
    let cone = both.sum(third);
    form_arithmetic::lemma_near_sum(both, third, 51650660566, 1141304446062, 5, 154);
    let gain = cone.quotient(source);
    form_arithmetic::lemma_large_quotient(
        cone,
        source,
        1192955106628,
        1192955106634,
        160,
        60,
        1099511627770,
        204,
    );
}

/// A quotient whose bits are known: it is nearer to the exact one than its
/// neighbours are.
proof fn lemma_quotient_bits(
    a: Wide,
    c: Wide,
    kx: nat,
    qx: nat,
    ky: nat,
    qy: nat,
    k: nat,
    q: nat,
    result: Wide,
)
    requires
        a.bits == kx * 0x10_0000_0000_0000 + qx,
        c.bits == ky * 0x10_0000_0000_0000 + qy,
        result.bits == k * 0x10_0000_0000_0000 + q,
        a.bits < 0x7ff0_0000_0000_0000,
        c.bits < 0x7ff0_0000_0000_0000,
        result.bits < 0x7ff0_0000_0000_0000,
        0x10_0000_0000_0000 <= qx < 0x20_0000_0000_0000,
        0x10_0000_0000_0000 <= qy < 0x20_0000_0000_0000,
        0x10_0000_0000_0000 < q < 0x1f_ffff_ffff_ffff,
        ky + k + 52 == kx + 1074,
        qy * (2 * q - 1) < 2 * qx * 0x10_0000_0000_0000 < qy * (2 * q + 1),
    ensures
        a.quotient(c) == result,
{
    reveal(Wide::quotient);
    lemma2_to64();
    lemma2_to64_rest();
    rounding::lemma_encode(kx, qx, 53);
    rounding::lemma_encode(ky, qy, 53);
    rounding::lemma_encode(k, q, 53);
    rounding::lemma_encode(k, (q - 1) as nat, 53);
    rounding::lemma_encode(k, q + 1, 53);
    lemma_pow2_adds(kx, 1074);
    lemma_pow2_adds(ky, k);
    lemma_pow2_adds(ky + k, 52);
    lemma_pow2_pos(ky);
    lemma_pow2_pos(k);
    let (x, y) = (a.value().size(Format::Double), c.value().size(Format::Double));
    let (py, p) = (pow2(ky) as int, pow2(k) as int);
    let unit = pow2(1074) as int;
    let num = x * unit;
    let low = q * p - p;
    assert((q - 1) * p == low && (q + 1) * p == q * p + p) by (nonlinear_arith)
        requires
            low == q * p - p,
    ;
    let pp = py * p;
    assert(pp > 0) by (nonlinear_arith)
        requires
            pp == py * p,
            py > 0,
            p > 0,
    ;
    assert(num == qx * 0x10_0000_0000_0000 * pp) by (nonlinear_arith)
        requires
            num == x * unit,
            x == qx * pow2(kx),
            pow2(kx) * unit == pp * 0x10_0000_0000_0000,
    ;
    assert(y * (low + q * p) == qy * (2 * q - 1) * pp && y * (q * p + (q * p + p)) == qy * (2 * q
        + 1) * pp) by (nonlinear_arith)
        requires
            y == qy * py,
            low == q * p - p,
            pp == py * p,
    ;
    assert(qy * (2 * q - 1) * pp < 2 * qx * 0x10_0000_0000_0000 * pp < qy * (2 * q + 1) * pp)
        by (nonlinear_arith)
        requires
            qy * (2 * q - 1) < 2 * qx * 0x10_0000_0000_0000 < qy * (2 * q + 1),
            pp > 0,
    ;
    assert(2 * qx * 0x10_0000_0000_0000 * pp == 2 * num) by (nonlinear_arith)
        requires
            num == qx * 0x10_0000_0000_0000 * pp,
    ;
    assert(y > 0) by (nonlinear_arith)
        requires
            y == qy * py,
            qy > 0,
            py > 0,
    ;
    let code = result.bits as nat;
    assert(rounding::rounds_to(num as nat, y, 53, code));
    rounding::lemma_nearest(num as nat, y, 53, code);
}

/// Zero times a number, or over one, is zero.
proof fn lemma_zero(v: Wide, c: Wide)
    requires
        v.value().code == 0,
        c.finite(),
        c.value().code != 0,
    ensures
        v.product(c).value().code == 0,
        v.quotient(c).value().code == 0,
{
    reveal(Wide::product);
    reveal(Wide::quotient);
    rounding::lemma_zero_magnitude(53);
    let y = c.value().size(Format::Double);
    lemma_pow2_pos(1074);
    rounding::lemma_increasing(0, c.value().code as nat, 53);
    assert(0 * y == 0 && 0 * pow2(1074) == 0);
    rounding::lemma_zero_fraction(pow2(1074), 53);
    rounding::lemma_nearest(0, pow2(1074), 53, 0);
    rounding::lemma_zero_fraction(y, 53);
    rounding::lemma_nearest(0, y, 53, 0);
}

/// Adding zero changes nothing.
proof fn lemma_adding_zero(v: Wide, zero: Wide)
    requires
        0 < v.bits < 0x7ff0_0000_0000_0000,
        zero.value().code == 0,
    ensures
        v.sum(zero) == v,
{
    reveal(Wide::sum);
    rounding::lemma_zero_magnitude(53);
    let code = v.value().code as nat;
    rounding::lemma_increasing(0, code, 53);
    rounding::lemma_held(code, 53);
    rounding::lemma_nearest(v.value().size(Format::Double), 1, 53, code);
}

/// A narrow zero is a wide one.
proof fn lemma_wide_zero(a: Scalar)
    requires
        a.finite(),
        laws::exact(a) == 0,
    ensures
        a.widened().value().code == 0,
{
    rounding::lemma_zero_magnitude(24);
    let code = a.value().code as nat;
    if code > 0 {
        rounding::lemma_increasing(0, code, 24);
    }
    assert(0 * pow2(925) == 0);
    rounding::lemma_zero_fraction(1, 53);
    rounding::lemma_nearest(0, 1, 53, 0);
}

/// Where the tint is not moved, it moves the white by nothing.
pub proof fn lemma_no_distance(adjustment: WhiteBalance)
    requires
        adjustment.tint.finite(),
        laws::exact(adjustment.tint) == 0,
    ensures
        white_balance::tint_distance(adjustment).size().below(
            white_balance::number(white_balance::EPSILON),
        ),
{
    let range = white_balance::number(white_balance::TINT_RANGE);
    let hundred = white_balance::number(white_balance::HUNDRED);
    let tint = adjustment.tint.widened().negated();
    lemma_wide_zero(adjustment.tint);
    lemma_zero(tint, range);
    lemma_zero(tint.product(range), hundred);
    let distance = white_balance::tint_distance(adjustment);
    assert(distance.value().code == 0);
}

/// Where the temperature is not moved, it is that of the reference white.
pub proof fn lemma_unmoved_kelvin(adjustment: WhiteBalance)
    requires
        adjustment.temperature.finite(),
        laws::exact(adjustment.temperature) == 0,
    ensures
        white_balance::known_kelvin(adjustment) == white_balance::number(
            white_balance::D65_KELVIN,
        ),
{
    let million = white_balance::number(white_balance::MILLION);
    let kelvin = white_balance::number(white_balance::D65_KELVIN);
    let mired = Wide { bits: 0x4063_380c_9867_481c };
    let zero = adjustment.temperature.widened();
    let range = white_balance::number(white_balance::MIRED_RANGE);
    let hundred = white_balance::number(white_balance::HUNDRED);
    lemma_wide_zero(adjustment.temperature);
    lemma_zero(zero, range);
    lemma_zero(zero.product(range), hundred);
    lemma_quotient_bits(
        million,
        kelvin,
        1041,
        8589934592000000,
        1034,
        7151223627055104,
        1029,
        5409651305170972,
        mired,
    );
    lemma_adding_zero(mired, zero.product(range).quotient(hundred));
    lemma_quotient_bits(
        million,
        mired,
        1041,
        8589934592000000,
        1029,
        5409651305170972,
        1034,
        7151223627055104,
        kelvin,
    );
}

/// Adding a number and taking it away again leaves what was there, but for
/// two parts.
pub proof fn lemma_there_and_back(w: Wide, t: Wide, r: int, q: int, e: int, h: int)
    requires
        form_arithmetic::is_near(w, r, e),
        form_arithmetic::is_near(t, q, h),
        0 <= r <= 0x100_0000_0000,
        0 <= q <= 0x100_0000_0000,
        0 <= e <= 0x10_0000,
        0 <= h <= 0x10_0000,
    ensures
        form_arithmetic::is_near(w.sum(t).difference(t), r, e + 2),
{
    let u = form_arithmetic::part();
    form_arithmetic::lemma_parts();
    assert(0 <= r * u <= 0x100_0000_0000 * u && 0 <= q * u <= 0x100_0000_0000 * u && e * u
        <= 0x10_0000 * u && h * u <= 0x10_0000 * u) by (nonlinear_arith)
        requires
            0 <= r <= 0x100_0000_0000,
            0 <= q <= 0x100_0000_0000,
            e <= 0x10_0000,
            h <= 0x10_0000,
            u > 0,
    ;
    wide_bounds::a_sum_is_close(w, t);
    wide_bounds::a_difference_is_close(w.sum(t), t);
    assert((e + 2) * u == e * u + 2 * u) by (nonlinear_arith);
}

/// With nothing adjusted, the white is the reference white.
proof fn lemma_neutral_white(length: Wide)
    ensures
        ({
            let white = white_balance::target_white(WhiteBalance::neutral(), length);
            &&& form_arithmetic::is_near(white.x, 343817286006, 16)
            &&& form_arithmetic::is_near(white.y, 361739325539, 16)
        }),
{
    let neutral = WhiteBalance::neutral();
    let base = white_balance::uniform(
        white_balance::locus(white_balance::number(white_balance::D65_KELVIN)),
    );
    let white = white_balance::uniform(
        Pair {
            x: white_balance::number(white_balance::D65_X),
            y: white_balance::number(white_balance::D65_Y),
        },
    );
    rounding::lemma_zero_magnitude(24);
    lemma_unmoved_kelvin(neutral);
    lemma_base();
    lemma_reference_white();
    lemma_there_and_back(white.x, base.x, 217516392627, 220334032570, 2, 33);
    lemma_there_and_back(white.y, base.y, 343282186637, 341224717513, 3, 112);
    let shifted = Pair {
        x: white.x.sum(base.x).difference(base.x),
        y: white.y.sum(base.y).difference(base.y),
    };
    lemma_back(shifted);
    lemma_no_distance(neutral);
}

/// A number of the matrix where all gains are one, but for some parts.
proof fn lemma_unit_entry(v: Wide, f: Form, s: Form, wanted: int)
    requires
        form_arithmetic::is_form(v, f, s, 1400500),
        wanted == 0 || wanted == 1,
        bounds::absolute(f.a + f.b + f.c - wanted * 0x100_0000_0000) <= 204000,
        f.weight() <= 0x1000_0000_0000,
        bounds::absolute(s.a - wide_bounds::one()) <= 210 * form_arithmetic::part(),
        bounds::absolute(s.b - wide_bounds::one()) <= 210 * form_arithmetic::part(),
        bounds::absolute(s.c - wide_bounds::one()) <= 210 * form_arithmetic::part(),
    ensures
        0x8_0000 * bounds::absolute(
            laws::exact(v.narrowed()) - wanted * laws::exact(Scalar { bits: constants::ONE }),
        ) <= laws::exact(Scalar { bits: constants::ONE }),
{
    let b = wide_bounds::one();
    let u = form_arithmetic::part();
    let x = wide_bounds::exact(v);
    form_arithmetic::lemma_parts();
    let off = Form { a: s.a - b, b: s.b - b, c: s.c - b };
    let limit = 210 * u;
    form_arithmetic::lemma_term_size(f.a, off.a, limit);
    form_arithmetic::lemma_term_size(f.b, off.b, limit);
    form_arithmetic::lemma_term_size(f.c, off.c, limit);
    let total = f.a + f.b + f.c;
    assert(f.at(s) == f.a * off.a + f.b * off.b + f.c * off.c + total * b) by {
        lemma_shifted(f.a, s.a, b);
        lemma_shifted(f.b, s.b, b);
        lemma_shifted(f.c, s.c, b);
        assert(total * b == f.a * b + f.b * b + f.c * b) by (nonlinear_arith)
            requires
                total == f.a + f.b + f.c,
        ;
    }
    let w = f.weight();
    let (wa, wb, wc) = (
        bounds::absolute(f.a),
        bounds::absolute(f.b),
        bounds::absolute(f.c),
    );
    assert(wa * limit + wb * limit + wc * limit <= 3360 * b) by (nonlinear_arith)
        requires
            wa + wb + wc <= 0x1000_0000_0000,
            limit == 210 * u,
            b == 0x100_0000_0000 * u,
            u > 0,
    {
        let ws = wa + wb + wc;
        assert(wa * limit + wb * limit + wc * limit == ws * limit);
        assert(ws * limit <= 0x1000_0000_0000 * limit);
    }
    let gap = total - wanted * 0x100_0000_0000;
    assert(-204000 * b <= gap * b <= 204000 * b && total * b == gap * b + wanted * 0x100_0000_0000
        * b) by (nonlinear_arith)
        requires
            -204000 <= gap <= 204000,
            gap == total - wanted * 0x100_0000_0000,
            b > 0,
    ;
    assert(-1620000 * u <= x - wanted * b <= 1620000 * u);
    adaptation_laws::lemma_narrowed(v);
    curve_laws::lemma_constants();
    lemma2_to64();
    lemma_pow2_adds(925, 149);
    lemma_pow2_adds(925, 109);
    lemma_pow2_adds(64, 45);
    lemma_pow2_pos(925);
    let p = pow2(925) as int;
    let narrow = laws::exact(v.narrowed());
    let one = laws::exact(Scalar { bits: constants::ONE });
    assert(b == p * one);
    assert(0x1_0000_0000 * p <= u) by (nonlinear_arith)
        requires
            u == p * pow2(109),
            pow2(109) >= 0x1_0000_0000,
            p > 0,
    ;
    let left = narrow - wanted * one;
    assert(left * p == narrow * p - wanted * b) by (nonlinear_arith)
        requires
            left == narrow - wanted * one,
            b == p * one,
    ;
    assert(-b <= 0x8_0000 * (left * p) <= b);
    assert(-one <= 0x8_0000 * left <= one) by (nonlinear_arith)
        requires
            -b <= 0x8_0000 * (left * p) <= b,
            b == p * one,
            p > 0,
    ;
}

proof fn lemma_shifted(x: int, s: int, b: int)
    ensures
        x * s == x * (s - b) + x * b,
{
    assert(x * s == x * (s - b) + x * b) by (nonlinear_arith);
}

/// Whether three numbers are those of a row of the unit matrix, but for one
/// part in 2^19 of one.
pub open spec fn is_unit_row(row: NarrowTriple, a: int, b: int, c: int) -> bool {
    let one = laws::exact(Scalar { bits: constants::ONE });
    &&& 0x8_0000 * bounds::absolute(laws::exact(row.a) - a * one) <= one
    &&& 0x8_0000 * bounds::absolute(laws::exact(row.b) - b * one) <= one
    &&& 0x8_0000 * bounds::absolute(laws::exact(row.c) - c * one) <= one
}

/// With nothing adjusted, the matrix of a white balance is the unit matrix,
/// but for one part in 2^19.
pub proof fn a_neutral_white_balance_changes_nothing(length: Wide, inverse: Matrix)
    requires
        white_balance::cat16_values().inverse() == Some(inverse),
    ensures
        ({
            let matrix = white_balance::adaptation(
                WhiteBalance::neutral(),
                length,
                inverse,
            ).narrowed();
            &&& is_unit_row(matrix.first, 1, 0, 0)
            &&& is_unit_row(matrix.second, 0, 1, 0)
            &&& is_unit_row(matrix.third, 0, 0, 1)
        }),
{
    let white = white_balance::target_white(WhiteBalance::neutral(), length);
    let source = white_balance::reference_cone();
    let xyz = white_balance::tristimulus(white);
    let target = white_balance::cat16_values().applied(xyz);
    let (a, b, c) = (
        target.a.quotient(source.a),
        target.b.quotient(source.b),
        target.c.quotient(source.c),
    );
    let s = adaptation_laws::gain_point(a, b, c);
    lemma_neutral_white(length);
    lemma_tristimulus(white);
    adaptation_laws::lemma_inverse();
    adaptation_laws::lemma_reference();
    lemma_gain_a(xyz, source.a);
    lemma_gain_b(xyz, source.b);
    lemma_gain_c(xyz, source.c);
    lemma_in_range(white);
    adaptation_laws::lemma_adaptation(white, inverse);
    form_arithmetic::lemma_parts();
    let m = white_balance::adaptation_to(white, inverse);
    lemma_unit_rows(m, s);
}

/// The reference white can be adapted to.
proof fn lemma_in_range(white: Pair)
    requires
        form_arithmetic::is_near(white.x, 343817286006, 16),
        form_arithmetic::is_near(white.y, 361739325539, 16),
    ensures
        adaptation_laws::is_in_range(white),
{
    form_arithmetic::lemma_parts();
}

proof fn lemma_unit_rows(m: Matrix, s: Form)
    requires
        adaptation_laws::rows_are_forms(m, adaptation_laws::matrix_forms(), s, 1400500),
        bounds::absolute(s.a - wide_bounds::one()) <= 210 * form_arithmetic::part(),
        bounds::absolute(s.b - wide_bounds::one()) <= 210 * form_arithmetic::part(),
        bounds::absolute(s.c - wide_bounds::one()) <= 210 * form_arithmetic::part(),
    ensures
        is_unit_row(m.first.narrowed(), 1, 0, 0),
        is_unit_row(m.second.narrowed(), 0, 1, 0),
        is_unit_row(m.third.narrowed(), 0, 0, 1),
{
    let f = adaptation_laws::matrix_forms();
    assert(entries_add_up(f)) by {
        reveal(adaptation_laws::matrix_forms);
    }
    lemma_unit_entry(m.first.a, f.first.a, s, 1);
    lemma_unit_entry(m.first.b, f.first.b, s, 0);
    lemma_unit_entry(m.first.c, f.first.c, s, 0);
    lemma_unit_entry(m.second.a, f.second.a, s, 0);
    lemma_unit_entry(m.second.b, f.second.b, s, 1);
    lemma_unit_entry(m.second.c, f.second.c, s, 0);
    lemma_unit_entry(m.third.a, f.third.a, s, 0);
    lemma_unit_entry(m.third.b, f.third.b, s, 0);
    lemma_unit_entry(m.third.c, f.third.c, s, 1);
}

/// Whether a form adds up to one or to nothing, and is of limited size.
spec fn adds_up(f: Form, wanted: int) -> bool {
    &&& bounds::absolute(f.a + f.b + f.c - wanted * 0x100_0000_0000) <= 204000
    &&& f.weight() <= 0x1000_0000_0000
}

spec fn entries_add_up(f: FormRows) -> bool {
    &&& adds_up(f.first.a, 1) && adds_up(f.first.b, 0) && adds_up(f.first.c, 0)
    &&& adds_up(f.second.a, 0) && adds_up(f.second.b, 1) && adds_up(f.second.c, 0)
    &&& adds_up(f.third.a, 0) && adds_up(f.third.b, 0) && adds_up(f.third.c, 1)
}

} // verus!
