//! The white of every adjustment is one that a photo can be adapted to.

use vstd::arithmetic::power2::*;
use vstd::prelude::*;

use crate::document::values;
use crate::document::values::WhiteBalance;
use crate::number::bounds;
use crate::number::constants;
use crate::number::laws;
use crate::number::rounding;
use crate::number::scalar::Scalar;
use crate::number::wide::Wide;
use crate::number::wide_bounds;
use crate::render::adaptation_laws;
use crate::render::form_arithmetic;
use crate::render::interval_arithmetic;
use crate::render::neutral_laws;
use crate::render::white_balance;
use crate::render::white_balance::{Matrix, Pair};

verus! {

pub proof fn lemma_warm_constants()
    ensures
        interval_arithmetic::lies(
            white_balance::number(white_balance::WX3),
            -292606322479097446400,
            -292606322479097446400,
        ),
        interval_arithmetic::lies(
            white_balance::number(white_balance::WX2),
            257679346062327808,
            257679346062327808,
        ),
        interval_arithmetic::lies(
            white_balance::number(white_balance::WX1),
            965036517847832,
            965036517847834,
        ),
        interval_arithmetic::lies(
            white_balance::number(white_balance::WX0),
            197813136952,
            197813136954,
        ),
        interval_arithmetic::lies(
            white_balance::number(white_balance::WY3),
            -1049975990118,
            -1049975990116,
        ),
        interval_arithmetic::lies(
            white_balance::number(white_balance::WY2),
            1510933408760,
            1510933408762,
        ),
        interval_arithmetic::lies(
            white_balance::number(white_balance::WY1),
            2299485797908,
            2299485797910,
        ),
        interval_arithmetic::lies(
            white_balance::number(white_balance::WY0),
            184155740185,
            184155740187,
        ),
{
    lemma2_to64();
    form_arithmetic::lemma_large_constant(0xc1afb974f8000000, 1049, 8929636306124800, 15);
    interval_arithmetic::lemma_near(
        white_balance::number(white_balance::WX3),
        -292606322479097446400,
        0,
    );
    form_arithmetic::lemma_large_constant(0x410c9bb000000000, 1039, 8052479564447744, 5);
    interval_arithmetic::lemma_near(
        white_balance::number(white_balance::WX2),
        257679346062327808,
        0,
    );
    form_arithmetic::lemma_constant(0x408b6d9096bb98c8, 1031, 7720292142782664, 965036517847833, 3);
    interval_arithmetic::lemma_near(white_balance::number(white_balance::WX1), 965036517847833, 1);
    form_arithmetic::lemma_constant(0x3fc7074a771c970f, 1019, 6481940871681807, 197813136953, 15);
    interval_arithmetic::lemma_near(white_balance::number(white_balance::WX0), 197813136953, 1);
    form_arithmetic::lemma_constant(0xbfee8eee44ec991b, 1021, 8601403311036699, -1049975990117, 13);
    interval_arithmetic::lemma_near(white_balance::number(white_balance::WY3), -1049975990117, 1);
    form_arithmetic::lemma_constant(0x3ff5fcaa62bf92d3, 1022, 6188783242285779, 1510933408761, 12);
    interval_arithmetic::lemma_near(white_balance::number(white_balance::WY2), 1510933408761, 1);
    form_arithmetic::lemma_constant(0x4000bb2045f0a519, 1023, 4709346914116889, 2299485797909, 11);
    interval_arithmetic::lemma_near(white_balance::number(white_balance::WY1), 2299485797909, 1);
    form_arithmetic::lemma_constant(0x3fc57044cc0cde60, 1019, 6034415294406240, 184155740186, 15);
    interval_arithmetic::lemma_near(white_balance::number(white_balance::WY0), 184155740186, 1);
}

/// The first coordinate of the locus below 4000 kelvin.
pub open spec fn warm_x(kelvin: Wide) -> Wide {
    white_balance::number(white_balance::WX3).quotient(white_balance::cubed(kelvin)).difference(
        white_balance::number(white_balance::WX2).quotient(white_balance::squared(kelvin)),
    ).sum(white_balance::number(white_balance::WX1).quotient(kelvin)).sum(
        white_balance::number(white_balance::WX0),
    )
}

/// The second coordinate of the locus below 4000 kelvin.
pub open spec fn warm_y(x: Wide) -> Wide {
    white_balance::number(white_balance::WY3).product(white_balance::cubed(x)).difference(
        white_balance::number(white_balance::WY2).product(white_balance::squared(x)),
    ).sum(white_balance::number(white_balance::WY1).product(x)).difference(
        white_balance::number(white_balance::WY0),
    )
}

/// Bounds of the first coordinate for a range of temperatures.
pub proof fn lemma_warm_x(
    k: Wide,
    kl: int,
    kh: int,
    ql: int,
    qh: int,
    ml: int,
    mh: int,
    al: int,
    ah: int,
    bl: int,
    bh: int,
    cl: int,
    ch: int,
)
    requires
        interval_arithmetic::lies(k, kl, kh),
        interval_arithmetic::holds_products(kl, kh, kl, kh, ql, qh),
        interval_arithmetic::holds_products(kl, kh, ql, qh, ml, mh),
        interval_arithmetic::holds_quotients(
            292606322479097446400,
            292606322479097446400,
            ml,
            mh,
            al,
            ah,
        ),
        interval_arithmetic::holds_quotients(
            257679346062327808,
            257679346062327808,
            ql,
            qh,
            bl,
            bh,
        ),
        interval_arithmetic::holds_quotients(965036517847832, 965036517847834, kl, kh, cl, ch),
        al <= ah <= 0x1000_0000_0000,
        bl <= bh <= 0x1000_0000_0000,
        cl <= ch <= 0x1000_0000_0000,
    ensures
        interval_arithmetic::lies(
            warm_x(k),
            -ah - bh + cl + 197813136952 - 3,
            -al - bl + ch + 197813136954 + 3,
        ),
{
    lemma_warm_constants();
    let (x3, x2, x1, x0) = (
        white_balance::number(white_balance::WX3),
        white_balance::number(white_balance::WX2),
        white_balance::number(white_balance::WX1),
        white_balance::number(white_balance::WX0),
    );
    let square = white_balance::squared(k);
    let cube = white_balance::cubed(k);
    interval_arithmetic::lemma_product(k, k, kl, kh, kl, kh, ql, qh);
    interval_arithmetic::lemma_product(k, square, kl, kh, ql, qh, ml, mh);
    interval_arithmetic::lemma_negative_quotient(
        x3,
        cube,
        292606322479097446400,
        292606322479097446400,
        ml,
        mh,
        al,
        ah,
    );
    interval_arithmetic::lemma_quotient(
        x2,
        square,
        257679346062327808,
        257679346062327808,
        ql,
        qh,
        bl,
        bh,
    );
    interval_arithmetic::lemma_quotient(x1, k, 965036517847832, 965036517847834, kl, kh, cl, ch);
    let third = x3.quotient(cube);
    let second = x2.quotient(square);
    let first = x1.quotient(k);
    interval_arithmetic::lemma_sum(third, second, -ah, -al, bl, bh);
    let both = third.difference(second);
    interval_arithmetic::lemma_sum(both, first, -ah - bh - 1, -al - bl + 1, cl, ch);
    interval_arithmetic::lemma_sum(
        both.sum(first),
        x0,
        -ah - bh - 1 + cl - 1,
        -al - bl + 1 + ch + 1,
        197813136952,
        197813136954,
    );
}

/// Bounds of the second coordinate for a range of the first.
pub proof fn lemma_warm_y(
    x: Wide,
    xl: int,
    xh: int,
    sl: int,
    sh: int,
    tl: int,
    th: int,
    dl: int,
    dh: int,
    el: int,
    eh: int,
    gl: int,
    gh: int,
)
    requires
        interval_arithmetic::lies(x, xl, xh),
        interval_arithmetic::holds_products(xl, xh, xl, xh, sl, sh),
        interval_arithmetic::holds_products(xl, xh, sl, sh, tl, th),
        interval_arithmetic::holds_products(1049975990116, 1049975990118, tl, th, dl, dh),
        interval_arithmetic::holds_products(1510933408760, 1510933408762, sl, sh, el, eh),
        interval_arithmetic::holds_products(2299485797908, 2299485797910, xl, xh, gl, gh),
        dl <= dh <= 0x1000_0000_0000,
        el <= eh <= 0x1000_0000_0000,
        gl <= gh <= 0x1000_0000_0000,
    ensures
        interval_arithmetic::lies(
            warm_y(x),
            -dh - eh + gl - 184155740187 - 3,
            -dl - el + gh - 184155740185 + 3,
        ),
{
    lemma_warm_constants();
    let (y3, y2, y1, y0) = (
        white_balance::number(white_balance::WY3),
        white_balance::number(white_balance::WY2),
        white_balance::number(white_balance::WY1),
        white_balance::number(white_balance::WY0),
    );
    let square = white_balance::squared(x);
    let cube = white_balance::cubed(x);
    interval_arithmetic::lemma_product(x, x, xl, xh, xl, xh, sl, sh);
    interval_arithmetic::lemma_product(x, square, xl, xh, sl, sh, tl, th);
    interval_arithmetic::lemma_negative_product(
        y3,
        cube,
        1049975990116,
        1049975990118,
        tl,
        th,
        dl,
        dh,
    );
    interval_arithmetic::lemma_product(y2, square, 1510933408760, 1510933408762, sl, sh, el, eh);
    interval_arithmetic::lemma_product(y1, x, 2299485797908, 2299485797910, xl, xh, gl, gh);
    let third = y3.product(cube);
    let second = y2.product(square);
    let first = y1.product(x);
    interval_arithmetic::lemma_sum(third, second, -dh, -dl, el, eh);
    let both = third.difference(second);
    interval_arithmetic::lemma_sum(both, first, -dh - eh - 1, -dl - el + 1, gl, gh);
    interval_arithmetic::lemma_sum(
        both.sum(first),
        y0,
        -dh - eh - 1 + gl - 1,
        -dl - el + 1 + gh + 1,
        184155740185,
        184155740187,
    );
}

pub proof fn lemma_cold_constants()
    ensures
        interval_arithmetic::lies(
            white_balance::number(white_balance::CX3),
            -3326953850419963494400,
            -3326953850419963494400,
        ),
        interval_arithmetic::lies(
            white_balance::number(white_balance::CX2),
            2316712671214724608,
            2316712671214724608,
        ),
        interval_arithmetic::lies(
            white_balance::number(white_balance::CX1),
            244789441396420,
            244789441396422,
        ),
        interval_arithmetic::lies(
            white_balance::number(white_balance::CX0),
            264311600200,
            264311600202,
        ),
        interval_arithmetic::lies(
            white_balance::number(white_balance::CY3),
            3388428754991,
            3388428754993,
        ),
        interval_arithmetic::lies(
            white_balance::number(white_balance::CY2),
            6457856971074,
            6457856971076,
        ),
        interval_arithmetic::lies(
            white_balance::number(white_balance::CY1),
            4124411019313,
            4124411019315,
        ),
        interval_arithmetic::lies(
            white_balance::number(white_balance::CY0),
            406835608034,
            406835608036,
        ),
{
    lemma2_to64();
    form_arithmetic::lemma_large_constant(0xc1e68b584e800000, 1053, 6345660878028800, 19);
    interval_arithmetic::lemma_near(
        white_balance::number(white_balance::CX3),
        -3326953850419963494400,
        0,
    );
    form_arithmetic::lemma_large_constant(0x4140134ef3333333, 1043, 4524829435966259, 9);
    interval_arithmetic::lemma_near(
        white_balance::number(white_balance::CX2),
        2316712671214724608,
        0,
    );
    form_arithmetic::lemma_constant(0x406bd44f765fd8ae, 1029, 7833262124685486, 244789441396421, 5);
    interval_arithmetic::lemma_near(white_balance::number(white_balance::CX1), 244789441396421, 1);
    form_arithmetic::lemma_constant(0x3fcec5197a24894c, 1019, 8660962515388748, 264311600201, 15);
    interval_arithmetic::lemma_near(white_balance::number(white_balance::CX0), 264311600201, 1);
    form_arithmetic::lemma_constant(0x4008a770bd017daf, 1023, 6939502090223023, 3388428754992, 11);
    interval_arithmetic::lemma_near(white_balance::number(white_balance::CY3), 3388428754992, 1);
    form_arithmetic::lemma_constant(0x40177e5915450ba3, 1024, 6612845538380707, 6457856971075, 10);
    interval_arithmetic::lemma_near(white_balance::number(white_balance::CY2), 6457856971075, 1);
    form_arithmetic::lemma_constant(0x400e02506e01904e, 1023, 8446793767555150, 4124411019314, 11);
    interval_arithmetic::lemma_near(white_balance::number(white_balance::CY1), 4124411019314, 1);
    form_arithmetic::lemma_constant(0x3fd7ae52ae78a3d6, 1020, 6665594602038230, 406835608035, 14);
    interval_arithmetic::lemma_near(white_balance::number(white_balance::CY0), 406835608035, 1);
}

/// The first coordinate of the locus above 4000 kelvin.
pub open spec fn cold_x(kelvin: Wide) -> Wide {
    white_balance::number(white_balance::CX3).quotient(white_balance::cubed(kelvin)).sum(
        white_balance::number(white_balance::CX2).quotient(white_balance::squared(kelvin)),
    ).sum(white_balance::number(white_balance::CX1).quotient(kelvin)).sum(
        white_balance::number(white_balance::CX0),
    )
}

/// The second coordinate of the locus above 4000 kelvin.
pub open spec fn cold_y(x: Wide) -> Wide {
    white_balance::number(white_balance::CY3).product(white_balance::cubed(x)).difference(
        white_balance::number(white_balance::CY2).product(white_balance::squared(x)),
    ).sum(white_balance::number(white_balance::CY1).product(x)).difference(
        white_balance::number(white_balance::CY0),
    )
}

/// Bounds of the first coordinate for a range of temperatures.
pub proof fn lemma_cold_x(
    k: Wide,
    kl: int,
    kh: int,
    ql: int,
    qh: int,
    ml: int,
    mh: int,
    al: int,
    ah: int,
    bl: int,
    bh: int,
    cl: int,
    ch: int,
)
    requires
        interval_arithmetic::lies(k, kl, kh),
        interval_arithmetic::holds_products(kl, kh, kl, kh, ql, qh),
        interval_arithmetic::holds_products(kl, kh, ql, qh, ml, mh),
        interval_arithmetic::holds_quotients(
            3326953850419963494400,
            3326953850419963494400,
            ml,
            mh,
            al,
            ah,
        ),
        interval_arithmetic::holds_quotients(
            2316712671214724608,
            2316712671214724608,
            ql,
            qh,
            bl,
            bh,
        ),
        interval_arithmetic::holds_quotients(244789441396420, 244789441396422, kl, kh, cl, ch),
        al <= ah <= 0x1000_0000_0000,
        bl <= bh <= 0x1000_0000_0000,
        cl <= ch <= 0x1000_0000_0000,
    ensures
        interval_arithmetic::lies(
            cold_x(k),
            bl - ah + cl + 264311600200 - 3,
            bh - al + ch + 264311600202 + 3,
        ),
{
    lemma_cold_constants();
    let (x3, x2, x1, x0) = (
        white_balance::number(white_balance::CX3),
        white_balance::number(white_balance::CX2),
        white_balance::number(white_balance::CX1),
        white_balance::number(white_balance::CX0),
    );
    let square = white_balance::squared(k);
    let cube = white_balance::cubed(k);
    interval_arithmetic::lemma_product(k, k, kl, kh, kl, kh, ql, qh);
    interval_arithmetic::lemma_product(k, square, kl, kh, ql, qh, ml, mh);
    interval_arithmetic::lemma_negative_quotient(
        x3,
        cube,
        3326953850419963494400,
        3326953850419963494400,
        ml,
        mh,
        al,
        ah,
    );
    interval_arithmetic::lemma_quotient(
        x2,
        square,
        2316712671214724608,
        2316712671214724608,
        ql,
        qh,
        bl,
        bh,
    );
    interval_arithmetic::lemma_quotient(x1, k, 244789441396420, 244789441396422, kl, kh, cl, ch);
    let third = x3.quotient(cube);
    let second = x2.quotient(square);
    let first = x1.quotient(k);
    interval_arithmetic::lemma_sum(third, second, -ah, -al, bl, bh);
    let both = third.sum(second);
    interval_arithmetic::lemma_sum(both, first, -ah + bl - 1, -al + bh + 1, cl, ch);
    interval_arithmetic::lemma_sum(
        both.sum(first),
        x0,
        -ah + bl - 1 + cl - 1,
        -al + bh + 1 + ch + 1,
        264311600200,
        264311600202,
    );
}

/// Bounds of the second coordinate for a range of the first.
pub proof fn lemma_cold_y(
    x: Wide,
    xl: int,
    xh: int,
    sl: int,
    sh: int,
    tl: int,
    th: int,
    dl: int,
    dh: int,
    el: int,
    eh: int,
    gl: int,
    gh: int,
)
    requires
        interval_arithmetic::lies(x, xl, xh),
        interval_arithmetic::holds_products(xl, xh, xl, xh, sl, sh),
        interval_arithmetic::holds_products(xl, xh, sl, sh, tl, th),
        interval_arithmetic::holds_products(3388428754991, 3388428754993, tl, th, dl, dh),
        interval_arithmetic::holds_products(6457856971074, 6457856971076, sl, sh, el, eh),
        interval_arithmetic::holds_products(4124411019313, 4124411019315, xl, xh, gl, gh),
        dl <= dh <= 0x1000_0000_0000,
        el <= eh <= 0x1000_0000_0000,
        gl <= gh <= 0x1000_0000_0000,
    ensures
        interval_arithmetic::lies(
            cold_y(x),
            dl - eh + gl - 406835608036 - 3,
            dh - el + gh - 406835608034 + 3,
        ),
{
    lemma_cold_constants();
    let (y3, y2, y1, y0) = (
        white_balance::number(white_balance::CY3),
        white_balance::number(white_balance::CY2),
        white_balance::number(white_balance::CY1),
        white_balance::number(white_balance::CY0),
    );
    let square = white_balance::squared(x);
    let cube = white_balance::cubed(x);
    interval_arithmetic::lemma_product(x, x, xl, xh, xl, xh, sl, sh);
    interval_arithmetic::lemma_product(x, square, xl, xh, sl, sh, tl, th);
    interval_arithmetic::lemma_product(y3, cube, 3388428754991, 3388428754993, tl, th, dl, dh);
    interval_arithmetic::lemma_product(y2, square, 6457856971074, 6457856971076, sl, sh, el, eh);
    interval_arithmetic::lemma_product(y1, x, 4124411019313, 4124411019315, xl, xh, gl, gh);
    let third = y3.product(cube);
    let second = y2.product(square);
    let first = y1.product(x);
    interval_arithmetic::lemma_sum(third, second, dl, dh, el, eh);
    let both = third.difference(second);
    interval_arithmetic::lemma_sum(both, first, dl - eh - 1, dh - el + 1, gl, gh);
    interval_arithmetic::lemma_sum(
        both.sum(first),
        y0,
        dl - eh - 1 + gl - 1,
        dh - el + 1 + gh + 1,
        406835608034,
        406835608036,
    );
}

/// Whether a chromaticity is one that the locus may have.
pub open spec fn is_known(xy: Pair) -> bool {
    &&& interval_arithmetic::lies(xy.x, 219902325556, 659706976665)
    &&& interval_arithmetic::lies(xy.y, 194613558117, 780653255720)
}

/// From 3640 to 4000 kelvin.
proof fn lemma_below_4000(k: Wide)
    requires
        interval_arithmetic::lies(k, 4002222325104640, 4398046511104001),
    ensures
        is_known(Pair { x: warm_x(k), y: warm_y(warm_x(k)) }),
{
    let x = warm_x(k);
    lemma_warm_x(
        k,
        4002222325104640,
        4398046511104001,
        14568089263380876659,
        17592186044416023627,
        53027844918706343940571,
        70368744177664173008002,
        4571973787,
        6067077674,
        16104959127,
        19448084930,
        241259129460,
        265119922487,
    );
    lemma_warm_y(
        x,
        413557103805,
        442256126530,
        155550404184,
        177888506601,
        58506861613,
        71552023551,
        55870987079,
        68328433167,
        213755176834,
        244451882881,
        864900982216,
        924921261682,
    );
    interval_arithmetic::lemma_wider(x, 413557103805, 442256126530, 219902325556, 659706976665);
    interval_arithmetic::lemma_wider(
        warm_y(x),
        367964925978,
        471139357587,
        194613558117,
        780653255720,
    );
}

/// From 4000 to 4410 kelvin.
proof fn lemma_from_4000(k: Wide)
    requires
        interval_arithmetic::lies(k, 4398046511103999, 4848846278492160),
    ensures
        is_known(Pair { x: cold_x(k), y: cold_y(cold_x(k)) }),
{
    let x = cold_x(k);
    lemma_cold_x(
        k,
        4398046511103999,
        4848846278492160,
        17592186044415976374,
        21383412088150444594,
        70368744177663826995999,
        94300847308743544415519,
        38791002922,
        51983653914,
        119122827998,
        144794541952,
        55507809839,
        61197360351,
    );
    lemma_cold_y(
        x,
        386958584120,
        431512499586,
        136184958885,
        169350675879,
        47928496194,
        66463083801,
        147704026572,
        204823140210,
        799866926254,
        994662007345,
        1451531942039,
        1618659469629,
    );
    interval_arithmetic::lemma_wider(x, 386958584120, 431512499586, 219902325556, 659706976665);
    interval_arithmetic::lemma_wider(
        cold_y(x),
        197738353227,
        616780075554,
        194613558117,
        780653255720,
    );
}

/// From 4410 to 4970 kelvin.
proof fn lemma_from_4410(k: Wide)
    requires
        interval_arithmetic::lies(k, 4848846278492160, 5464572790046720),
    ensures
        is_known(Pair { x: cold_x(k), y: cold_y(cold_x(k)) }),
{
    let x = cold_x(k);
    lemma_cold_x(
        k,
        4848846278492160,
        5464572790046720,
        21383412088150406606,
        27158926766532222523,
        94300847308743209376481,
        134979866029665265825516,
        27100519144,
        38791002925,
        93790617798,
        119122828001,
        49253408730,
        55507809842,
    );
    lemma_cold_y(
        x,
        368564623800,
        411841718904,
        123545652891,
        154262671851,
        41413438410,
        57781839077,
        127626195126,
        178069644832,
        725631394531,
        906044325158,
        1382533806216,
        1544871814679,
    );
    interval_arithmetic::lemma_wider(x, 368564623800, 411841718904, 219902325556, 659706976665);
    interval_arithmetic::lemma_wider(
        cold_y(x),
        197280068145,
        590474456949,
        194613558117,
        780653255720,
    );
}

/// From 4970 to 5790 kelvin.
proof fn lemma_from_4970(k: Wide)
    requires
        interval_arithmetic::lies(k, 5464572790046720, 6366172324823040),
    ensures
        is_known(Pair { x: cold_x(k), y: cold_y(cold_x(k)) }),
{
    let x = cold_x(k);
    lemma_cold_x(
        k,
        5464572790046720,
        6366172324823040,
        27158926766532174277,
        36860137760725434340,
        134979866029664786270484,
        213420197634600454383815,
        17140010570,
        27100519147,
        69105887143,
        93790617801,
        42277969152,
        49253408733,
    );
    lemma_cold_y(
        x,
        348594937345,
        390215616169,
        110520368563,
        138487145799,
        35039957723,
        49148954468,
        107984670031,
        151465183625,
        649128862795,
        813388560258,
        1307624916863,
        1463749492575,
    );
    interval_arithmetic::lemma_wider(x, 348594937345, 390215616169, 219902325556, 659706976665);
    interval_arithmetic::lemma_wider(
        cold_y(x),
        195385418597,
        559250205374,
        194613558117,
        780653255720,
    );
}

/// From 5790 to 7090 kelvin.
proof fn lemma_from_5790(k: Wide)
    requires
        interval_arithmetic::lies(k, 6366172324823040, 7795537440931840),
    ensures
        is_known(Pair { x: cold_x(k), y: cold_y(cold_x(k)) }),
{
    let x = cold_x(k);
    lemma_cold_x(
        k,
        6366172324823040,
        7795537440931840,
        36860137760725368860,
        55270360456206794691,
        213420197634599696144185,
        391866855634506522406876,
        9334865632,
        17140010573,
        46087134209,
        69105887146,
        34526014300,
        42277969155,
    );
    lemma_cold_y(
        x,
        327784738133,
        366360590874,
        97718688768,
        122072453948,
        29131747221,
        40674909869,
        89776995051,
        125350228890,
        573939646950,
        716978727456,
        1229563154917,
        1374266192256,
    );
    interval_arithmetic::lemma_wider(x, 327784738133, 366360590874, 219902325556, 659706976665);
    interval_arithmetic::lemma_wider(
        cold_y(x),
        195525814473,
        518841166165,
        194613558117,
        780653255720,
    );
}

/// From 7090 to 9490 kelvin.
proof fn lemma_from_7090(k: Wide)
    requires
        interval_arithmetic::lies(k, 7795537440931840, 10434365347594240),
    ensures
        is_known(Pair { x: cold_x(k), y: cold_y(cold_x(k)) }),
{
    let x = cold_x(k);
    lemma_cold_x(
        k,
        7795537440931840,
        10434365347594240,
        55270360456206696509,
        99022127148669425551,
        391866855634505130201124,
        939719986640873683118004,
        3892674940,
        9334865635,
        25724073936,
        46087134212,
        25794461684,
        34526014303,
    );
    lemma_cold_y(
        x,
        306495270182,
        341032073780,
        85437341697,
        105776848930,
        23816156613,
        32808473543,
        73395631170,
        101107775810,
        501806546405,
        621268337675,
        1149703593641,
        1279255632689,
    );
    interval_arithmetic::lemma_wider(x, 306495270182, 341032073780, 219902325556, 659706976665);
    interval_arithmetic::lemma_wider(
        cold_y(x),
        194995279097,
        471721254063,
        194613558117,
        780653255720,
    );
}

/// From 9490 to 15550 kelvin.
proof fn lemma_from_9490(k: Wide)
    requires
        interval_arithmetic::lies(k, 10434365347594240, 17097405811916800),
    ensures
        is_known(Pair { x: cold_x(k), y: cold_y(cold_x(k)) }),
{
    let x = cold_x(k);
    lemma_cold_x(
        k,
        10434365347594240,
        17097405811916800,
        99022127148669249649,
        265864660375306476137,
        939719986640870344529996,
        4134195468836019375833550,
        884821355,
        3892674943,
        9581012069,
        25724073939,
        15742086262,
        25794461687,
    );
    lemma_cold_y(
        x,
        285742023585,
        314945314476,
        74258881833,
        90213280702,
        19298461814,
        25840790897,
        59473189081,
        79635064075,
        436151128913,
        529857483040,
        1071855468356,
        1181400808044,
    );
    interval_arithmetic::lemma_wider(x, 285742023585, 314945314476, 219902325556, 659706976665);
    interval_arithmetic::lemma_wider(
        cold_y(x),
        194635566358,
        418049135175,
        194613558117,
        780653255720,
    );
}

/// From 15550 to 25100 kelvin.
proof fn lemma_from_15550(k: Wide)
    requires
        interval_arithmetic::lies(k, 17097405811916800, 27597741857177600),
    ensures
        is_known(Pair { x: cold_x(k), y: cold_y(cold_x(k)) }),
{
    let x = cold_x(k);
    lemma_cold_x(
        k,
        17097405811916800,
        27597741857177600,
        265864660375306003863,
        692703320615158375246,
        4134195468836004688166450,
        17386853347440490661302531,
        210390250,
        884821358,
        3677263330,
        9581012072,
        9752567385,
        15742086265,
    );
    lemma_cold_y(
        x,
        276856609554,
        289424308292,
        69712388951,
        76185124482,
        17553553014,
        20054200792,
        54095802428,
        61802193726,
        409447818088,
        447464696872,
        1038525125489,
        1085668196882,
    );
    interval_arithmetic::lemma_wider(x, 276856609554, 289424308292, 219902325556, 659706976665);
    interval_arithmetic::lemma_wider(
        cold_y(x),
        238320623006,
        331186964489,
        194613558117,
        780653255720,
    );
}

/// Up to 4000 kelvin the locus is that of warm temperatures.
pub proof fn lemma_warm_locus(k: Wide)
    requires
        interval_arithmetic::lies(k, 4002222325104640, 27597741857177600),
        k.at_most(white_balance::number(white_balance::WARM_LIMIT)),
    ensures
        interval_arithmetic::lies(k, 4002222325104640, 4398046511104001),
        white_balance::locus(k) == (Pair { x: warm_x(k), y: warm_y(warm_x(k)) }),
{
    form_arithmetic::lemma_parts();
    lemma_limits();
    wide_bounds::order_is_exact(k, white_balance::number(white_balance::WARM_LIMIT));
    wide_bounds::order_is_exact(k, white_balance::number(white_balance::VERY_WARM_LIMIT));
}

/// Above 4000 kelvin the locus is that of cold temperatures.
pub proof fn lemma_cold_locus(k: Wide)
    requires
        k.finite(),
        !k.at_most(white_balance::number(white_balance::WARM_LIMIT)),
    ensures
        wide_bounds::exact(k) >= 4398046511103999 * form_arithmetic::part(),
        white_balance::locus(k) == (Pair { x: cold_x(k), y: cold_y(cold_x(k)) }),
{
    form_arithmetic::lemma_parts();
    lemma_limits();
    wide_bounds::order_is_exact(k, white_balance::number(white_balance::WARM_LIMIT));
    wide_bounds::order_is_exact(k, white_balance::number(white_balance::VERY_WARM_LIMIT));
}

/// A temperature above 4001 kelvin is not a warm one.
pub proof fn lemma_above_the_limit(k: Wide, low: int, high: int)
    requires
        interval_arithmetic::lies(k, low, high),
        low >= 4399146022731776,
    ensures
        !k.at_most(white_balance::number(white_balance::WARM_LIMIT)),
{
    form_arithmetic::lemma_parts();
    lemma_limits();
    interval_arithmetic::lemma_wider(k, low, high, 4399146022731776, high);
    wide_bounds::order_is_exact(k, white_balance::number(white_balance::WARM_LIMIT));
}

proof fn lemma_limits()
    ensures
        interval_arithmetic::lies(
            white_balance::number(white_balance::WARM_LIMIT),
            4398046511103999,
            4398046511104001,
        ),
        interval_arithmetic::lies(
            white_balance::number(white_balance::VERY_WARM_LIMIT),
            2443114836918271,
            2443114836918273,
        ),
{
    lemma2_to64();
    form_arithmetic::lemma_constant(
        0x40af400000000000,
        1033,
        8796093022208000,
        4398046511104000,
        1,
    );
    interval_arithmetic::lemma_near(
        white_balance::number(white_balance::WARM_LIMIT),
        4398046511104000,
        1,
    );
    form_arithmetic::lemma_constant(
        0x40a15c0000000000,
        1033,
        4886229673836544,
        2443114836918272,
        1,
    );
    interval_arithmetic::lemma_near(
        white_balance::number(white_balance::VERY_WARM_LIMIT),
        2443114836918272,
        1,
    );
}

/// The locus from 3640 to 25100 kelvin.
pub proof fn lemma_locus(k: Wide)
    requires
        interval_arithmetic::lies(k, 4002222325104640, 27597741857177600),
    ensures
        is_known(white_balance::locus(k)),
{
    let v = wide_bounds::exact(k);
    let u = form_arithmetic::part();
    form_arithmetic::lemma_parts();
    let warm = white_balance::number(white_balance::WARM_LIMIT);
    if !k.at_most(warm) {
        lemma_cold_locus(k);
    }
    if k.at_most(warm) {
        lemma_warm_locus(k);
        lemma_below_4000(k);
    } else if v <= 4848846278492160 * u {
        lemma_from_4000(k);
    } else if v <= 5464572790046720 * u {
        lemma_from_4410(k);
    } else if v <= 6366172324823040 * u {
        lemma_from_4970(k);
    } else if v <= 7795537440931840 * u {
        lemma_from_5790(k);
    } else if v <= 10434365347594240 * u {
        lemma_from_7090(k);
    } else if v <= 17097405811916800 * u {
        lemma_from_9490(k);
    } else {
        lemma_from_15550(k);
    }
}

/// The whole numbers that the uniform scale is reckoned with.
proof fn lemma_wholes()
    ensures
        white_balance::number(white_balance::MINUS_TWO).finite(),
        wide_bounds::exact(white_balance::number(white_balance::MINUS_TWO)) == -2
            * wide_bounds::one(),
        white_balance::number(white_balance::TWO).finite(),
        wide_bounds::exact(white_balance::number(white_balance::TWO)) == 2 * wide_bounds::one(),
        white_balance::number(white_balance::THREE).finite(),
        wide_bounds::exact(white_balance::number(white_balance::THREE)) == 3 * wide_bounds::one(),
        white_balance::number(white_balance::FOUR).finite(),
        wide_bounds::exact(white_balance::number(white_balance::FOUR)) == 4 * wide_bounds::one(),
        white_balance::number(white_balance::SIX).finite(),
        wide_bounds::exact(white_balance::number(white_balance::SIX)) == 6 * wide_bounds::one(),
        white_balance::number(white_balance::EIGHT).finite(),
        wide_bounds::exact(white_balance::number(white_balance::EIGHT)) == 8 * wide_bounds::one(),
        white_balance::number(white_balance::TWELVE).finite(),
        wide_bounds::exact(white_balance::number(white_balance::TWELVE)) == 12 * wide_bounds::one(),
{
    lemma2_to64();
    lemma2_to64_rest();
    rounding::lemma_encode(1023, 0x10_0000_0000_0000, 53);
    rounding::lemma_encode(1023, 0x18_0000_0000_0000, 53);
    rounding::lemma_encode(1024, 0x10_0000_0000_0000, 53);
    rounding::lemma_encode(1024, 0x18_0000_0000_0000, 53);
    rounding::lemma_encode(1025, 0x10_0000_0000_0000, 53);
    rounding::lemma_encode(1025, 0x18_0000_0000_0000, 53);
    lemma_pow2_adds(52, 1022);
    lemma_pow2_unfold(1023);
    lemma_pow2_unfold(1024);
    lemma_pow2_unfold(1025);
}

/// Whether a place in the uniform scale is near the locus, in parts.
pub open spec fn is_near_locus(uv: Pair, low: int, side: int, top: int, end: int) -> bool {
    let (x, y) = (wide_bounds::exact(uv.x), wide_bounds::exact(uv.y));
    let u = form_arithmetic::part();
    &&& uv.x.finite() && uv.y.finite()
    &&& x >= low * u
    &&& 11 * y - x >= side * u
    &&& 5 * y - x <= top * u
    &&& 8 * y + x <= end * u
}

/// What the coordinates in the uniform scale are divided from: the common
/// divisor, and what is divided for the second and for the first.
pub proof fn lemma_uniform_ratios(xy: Pair) -> (ratios: (int, int, int))
    requires
        is_known(xy),
    ensures
        ({
            let (d, m, n) = ratios;
            let (x, y) = (wide_bounds::exact(xy.x), wide_bounds::exact(xy.y));
            let uv = white_balance::uniform(xy);
            let u = form_arithmetic::part();
            &&& uv.x.finite() && uv.y.finite()
            &&& d > 0
            &&& -4 * u <= d - (3 * wide_bounds::one() + 12 * y - 2 * x) <= 4 * u
            &&& -u <= m - 6 * y <= u
            &&& -u <= n - 4 * x <= u
            &&& interval_arithmetic::is_ratio(wide_bounds::exact(uv.y), m, d)
            &&& interval_arithmetic::is_ratio(wide_bounds::exact(uv.x), n, d)
        }),
{
    let u = form_arithmetic::part();
    form_arithmetic::lemma_parts();
    lemma_wholes();
    let (two, twelve, three) = (
        white_balance::number(white_balance::MINUS_TWO),
        white_balance::number(white_balance::TWELVE),
        white_balance::number(white_balance::THREE),
    );
    let (four, six) = (
        white_balance::number(white_balance::FOUR),
        white_balance::number(white_balance::SIX),
    );
    interval_arithmetic::lemma_multiple_agrees(two, -2, xy.x);
    interval_arithmetic::lemma_multiple_agrees(twelve, 12, xy.y);
    interval_arithmetic::lemma_multiple_agrees(four, 4, xy.x);
    interval_arithmetic::lemma_multiple_agrees(six, 6, xy.y);
    let (a, c) = (two.product(xy.x), twelve.product(xy.y));
    interval_arithmetic::lemma_sum_agrees(a, c);
    interval_arithmetic::lemma_sum_agrees(a.sum(c), three);
    let denominator = a.sum(c).sum(three);
    let (p, q) = (four.product(xy.x), six.product(xy.y));
    interval_arithmetic::lemma_ratio_agrees(p, denominator);
    interval_arithmetic::lemma_ratio_agrees(q, denominator);
    (wide_bounds::exact(denominator), wide_bounds::exact(q), wide_bounds::exact(p))
}

/// The locus in the uniform scale.
pub proof fn lemma_uniform(xy: Pair)
    requires
        is_known(xy),
    ensures
        is_near_locus(
            white_balance::uniform(xy),
            32985348833,
            2506886511329,
            2045091627663,
            4167149069271,
        ),
{
    let u = form_arithmetic::part();
    form_arithmetic::lemma_parts();
    let (d, m, n) = lemma_uniform_ratios(xy);
    let uv = white_balance::uniform(xy);
    let (v, w) = (wide_bounds::exact(uv.y), wide_bounds::exact(uv.x));
    assert((n) * 0x100_0000_0000 >= 32985348835 * d);
    interval_arithmetic::lemma_combined(v, w, d, m, n, 0, 1, 1, 32985348833, u);
    assert((11 * m - n) * 0x100_0000_0000 >= 2506886511351 * d);
    interval_arithmetic::lemma_combined(v, w, d, m, n, 11, -1, 11, 2506886511329, u);
    assert((-5 * m + n) * 0x100_0000_0000 >= -2045091627653 * d);
    interval_arithmetic::lemma_combined(v, w, d, m, n, -5, 1, 5, -2045091627663, u);
    assert((-8 * m - n) * 0x100_0000_0000 >= -4167149069255 * d);
    interval_arithmetic::lemma_combined(v, w, d, m, n, -8, -1, 8, -4167149069271, u);
}

/// What the coordinates back from the uniform scale are divided from.
pub proof fn lemma_back_ratios(uv: Pair) -> (ratios: (int, int, int))
    requires
        is_near_locus(uv, 5497558138, 2200122767179, 2196824232296, 4395847487848),
    ensures
        ({
            let (d, m, n) = ratios;
            let (x, y) = (wide_bounds::exact(uv.x), wide_bounds::exact(uv.y));
            let xy = white_balance::from_uniform(uv);
            let u = form_arithmetic::part();
            &&& xy.x.finite() && xy.y.finite()
            &&& d > 0
            &&& -4 * u <= d - (4 * wide_bounds::one() + 2 * x - 8 * y) <= 4 * u
            &&& -u <= m - 2 * y <= u
            &&& -u <= n - 3 * x <= u
            &&& interval_arithmetic::is_ratio(wide_bounds::exact(xy.y), m, d)
            &&& interval_arithmetic::is_ratio(wide_bounds::exact(xy.x), n, d)
        }),
{
    let u = form_arithmetic::part();
    form_arithmetic::lemma_parts();
    lemma_wholes();
    let (two, eight, four, three) = (
        white_balance::number(white_balance::TWO),
        white_balance::number(white_balance::EIGHT),
        white_balance::number(white_balance::FOUR),
        white_balance::number(white_balance::THREE),
    );
    interval_arithmetic::lemma_multiple_agrees(two, 2, uv.x);
    interval_arithmetic::lemma_multiple_agrees(eight, 8, uv.y);
    interval_arithmetic::lemma_multiple_agrees(three, 3, uv.x);
    interval_arithmetic::lemma_multiple_agrees(two, 2, uv.y);
    let (a, c) = (two.product(uv.x), eight.product(uv.y));
    interval_arithmetic::lemma_sum_agrees(a, c);
    interval_arithmetic::lemma_sum_agrees(a.difference(c), four);
    let denominator = a.difference(c).sum(four);
    let (p, q) = (three.product(uv.x), two.product(uv.y));
    interval_arithmetic::lemma_ratio_agrees(p, denominator);
    interval_arithmetic::lemma_ratio_agrees(q, denominator);
    (wide_bounds::exact(denominator), wide_bounds::exact(q), wide_bounds::exact(p))
}

/// Back from the uniform scale: a white in range.
pub proof fn lemma_back(uv: Pair)
    requires
        is_near_locus(uv, 5497558138, 2200122767179, 2196824232296, 4395847487848),
    ensures
        adaptation_laws::is_in_range(white_balance::from_uniform(uv)),
{
    let u = form_arithmetic::part();
    form_arithmetic::lemma_parts();
    let (d, m, n) = lemma_back_ratios(uv);
    let xy = white_balance::from_uniform(uv);
    let (v, w) = (wide_bounds::exact(xy.y), wide_bounds::exact(xy.x));
    assert((n) * 0x100_0000_0000 >= 2 * d);
    interval_arithmetic::lemma_combined(v, w, d, m, n, 0, 1, 1, 0, u);
    assert((-n) * 0x100_0000_0000 >= -1099511627774 * d);
    interval_arithmetic::lemma_combined(v, w, d, m, n, 0, -1, 1, -0x100_0000_0000, u);
    assert((7 * m) * 0x100_0000_0000 >= 1099511627790 * d);
    interval_arithmetic::lemma_combined(v, w, d, m, n, 7, 0, 7, 0x100_0000_0000, u);
    assert((-m) * 0x100_0000_0000 >= -1099511627774 * d);
    interval_arithmetic::lemma_combined(v, w, d, m, n, -1, 0, 1, -0x100_0000_0000, u);
}

/// A valid amount, widened.
proof fn lemma_amount(amount: Scalar)
    requires
        values::hundred_both_ways(amount),
    ensures
        interval_arithmetic::lies(amount.widened(), -109951162777601, 109951162777601),
{
    let (low, high) = (
        Scalar { bits: constants::MINUS_HUNDRED },
        Scalar { bits: constants::HUNDRED },
    );
    let p = pow2(925) as int;
    let b = wide_bounds::one();
    let n = laws::exact(amount);
    form_arithmetic::lemma_parts();
    lemma2_to64();
    rounding::lemma_encode(132, 0xc8_0000, 24);
    lemma_pow2_adds(132, 17);
    lemma_pow2_adds(149, 11);
    lemma_pow2_pos(132);
    lemma_pow2_adds(149, 925);
    lemma_pow2_pos(925);
    laws::order_is_exact(low, amount);
    laws::order_is_exact(amount, high);
    let one = pow2(149) as int;
    assert(laws::exact(high) == 100 * one);
    assert(laws::exact(low) == -(100 * one));
    let np = n * p;
    assert(-(100 * b) <= np <= 100 * b) by (nonlinear_arith)
        requires
            np == n * p,
            b == one * p,
            -(100 * one) <= n <= 100 * one,
            p > 0,
    ;
    wide_bounds::widening_is_close(amount);
}

pub proof fn lemma_slider_constants()
    ensures
        interval_arithmetic::lies(
            white_balance::number(white_balance::TINT_RANGE),
            21990232555,
            21990232557,
        ),
        interval_arithmetic::lies(
            white_balance::number(white_balance::MIRED_RANGE),
            131941395333119,
            131941395333121,
        ),
        interval_arithmetic::lies(
            white_balance::number(white_balance::HUNDRED),
            109951162777599,
            109951162777601,
        ),
        interval_arithmetic::lies(
            white_balance::number(white_balance::MILLION),
            1099511627776000000,
            1099511627776000000,
        ),
        interval_arithmetic::lies(
            white_balance::number(white_balance::D65_KELVIN),
            7151223627055104,
            7151223627055104,
        ),
        interval_arithmetic::lies(
            white_balance::number(white_balance::TENTH),
            109951162777,
            109951162779,
        ),
        interval_arithmetic::lies(
            white_balance::number(white_balance::COLDEST),
            1832885883502591,
            1832885883502593,
        ),
        interval_arithmetic::lies(
            white_balance::number(white_balance::HOTTEST),
            27487790694400000,
            27487790694400000,
        ),
{
    lemma2_to64();
    form_arithmetic::lemma_constant(0x3f947ae147ae147b, 1016, 5764607523034235, 21990232556, 18);
    interval_arithmetic::lemma_near(
        white_balance::number(white_balance::TINT_RANGE),
        21990232556,
        1,
    );
    form_arithmetic::lemma_constant(0x405e000000000000, 1028, 8444249301319680, 131941395333120, 6);
    interval_arithmetic::lemma_near(
        white_balance::number(white_balance::MIRED_RANGE),
        131941395333120,
        1,
    );
    form_arithmetic::lemma_constant(0x4059000000000000, 1028, 7036874417766400, 109951162777600, 6);
    interval_arithmetic::lemma_near(
        white_balance::number(white_balance::HUNDRED),
        109951162777600,
        1,
    );
    form_arithmetic::lemma_large_constant(0x412e848000000000, 1041, 8589934592000000, 7);
    interval_arithmetic::lemma_near(
        white_balance::number(white_balance::MILLION),
        1099511627776000000,
        0,
    );
    form_arithmetic::lemma_large_constant(0x40b9680000000000, 1034, 7151223627055104, 0);
    interval_arithmetic::lemma_near(
        white_balance::number(white_balance::D65_KELVIN),
        7151223627055104,
        0,
    );
    form_arithmetic::lemma_constant(0x3fb999999999999a, 1018, 7205759403792794, 109951162778, 16);
    interval_arithmetic::lemma_near(white_balance::number(white_balance::TENTH), 109951162778, 1);
    form_arithmetic::lemma_constant(
        0x409a0c0000000000,
        1032,
        7331543534010368,
        1832885883502592,
        2,
    );
    interval_arithmetic::lemma_near(
        white_balance::number(white_balance::COLDEST),
        1832885883502592,
        1,
    );
    form_arithmetic::lemma_large_constant(0x40d86a0000000000, 1036, 6871947673600000, 2);
    interval_arithmetic::lemma_near(
        white_balance::number(white_balance::HOTTEST),
        27487790694400000,
        0,
    );
}

/// The temperature of a valid adjustment.
proof fn lemma_kelvin(adjustment: WhiteBalance)
    requires
        adjustment.valid(),
    ensures
        interval_arithmetic::lies(
            white_balance::known_kelvin(adjustment),
            4007719883243520,
            27487790694400001,
        ),
{
    let u = form_arithmetic::part();
    form_arithmetic::lemma_parts();
    lemma_slider_constants();
    lemma_amount(adjustment.temperature);
    let amount = adjustment.temperature.widened();
    let (range, hundred) = (
        white_balance::number(white_balance::MIRED_RANGE),
        white_balance::number(white_balance::HUNDRED),
    );
    let (million, reference) = (
        white_balance::number(white_balance::MILLION),
        white_balance::number(white_balance::D65_KELVIN),
    );
    let (coldest, hottest) = (
        white_balance::number(white_balance::COLDEST),
        white_balance::number(white_balance::HOTTEST),
    );
    interval_arithmetic::lemma_wider(
        range,
        131941395333119,
        131941395333121,
        -131941395333121,
        131941395333121,
    );
    interval_arithmetic::lemma_product_size(
        amount,
        range,
        109951162777601,
        131941395333121,
        13194139533312233,
    );
    let step = amount.product(range).quotient(hundred);
    interval_arithmetic::lemma_quotient_size(
        amount.product(range),
        hundred,
        13194139533312233,
        109951162777599,
        109951162777601,
        131941395333125,
    );
    let middle = million.quotient(reference);
    interval_arithmetic::lemma_quotient(
        million,
        reference,
        1099511627776000000,
        1099511627776000000,
        7151223627055104,
        7151223627055104,
        169051603286591,
        169051603286595,
    );
    interval_arithmetic::lemma_sum(
        middle,
        step,
        169051603286591,
        169051603286595,
        -131941395333125,
        131941395333125,
    );
    let mired = middle.sum(step);
    interval_arithmetic::lemma_quotient(
        million,
        mired,
        1099511627776000000,
        1099511627776000000,
        37110207953465,
        300992998619721,
        4016458273642446,
        32576638242787110,
    );
    let kelvin = white_balance::target_kelvin(adjustment);
    assert(kelvin == million.quotient(mired));
    wide_bounds::order_is_exact(kelvin, coldest);
    wide_bounds::order_is_exact(hottest, kelvin);
}

/// The tangent of the locus is small.
proof fn lemma_tangent(adjustment: WhiteBalance)
    requires
        adjustment.valid(),
    ensures
        ({
            let tangent = white_balance::locus_tangent(adjustment);
            &&& interval_arithmetic::lies(tangent.x, -0x1000_0000_0000, 0x1000_0000_0000)
            &&& interval_arithmetic::lies(tangent.y, -0x1000_0000_0000, 0x1000_0000_0000)
        }),
{
    let u = form_arithmetic::part();
    form_arithmetic::lemma_parts();
    lemma_slider_constants();
    lemma_kelvin(adjustment);
    let kelvin = white_balance::known_kelvin(adjustment);
    let (million, tenth) = (
        white_balance::number(white_balance::MILLION),
        white_balance::number(white_balance::TENTH),
    );
    let mired = million.quotient(kelvin);
    interval_arithmetic::lemma_quotient(
        million,
        kelvin,
        1099511627776000000,
        1099511627776000000,
        4007719883243520,
        27487790694400001,
        43980465111038,
        301649280596984,
    );
    interval_arithmetic::lemma_sum(
        mired,
        tenth,
        43980465111038,
        301649280596984,
        109951162777,
        109951162779,
    );
    let (first, last) = (
        million.quotient(mired.difference(tenth)),
        million.quotient(mired.sum(tenth)),
    );
    interval_arithmetic::lemma_quotient(
        million,
        mired.difference(tenth),
        1099511627776000000,
        1099511627776000000,
        43870513948258,
        301539329434208,
        4009181229801732,
        27556682400403792,
    );
    interval_arithmetic::lemma_quotient(
        million,
        mired.sum(tenth),
        1099511627776000000,
        1099511627776000000,
        44090416273814,
        301759231759764,
        4006259601618669,
        27419242587932439,
    );
    lemma_locus(first);
    lemma_locus(last);
    lemma_uniform(white_balance::locus(first));
    lemma_uniform(white_balance::locus(last));
    let before = white_balance::uniform(white_balance::locus(first));
    let after = white_balance::uniform(white_balance::locus(last));
    interval_arithmetic::lemma_sum_agrees(after.x, before.x);
    interval_arithmetic::lemma_sum_agrees(after.y, before.y);
}

/// Whether a number can be the length of a tangent: it is no less than either
/// of its coordinates, and neither vanishing nor large.
pub open spec fn is_length_of(length: Wide, tangent: Pair) -> bool {
    let (x, y) = (wide_bounds::exact(tangent.x), wide_bounds::exact(tangent.y));
    let l = wide_bounds::exact(length);
    &&& interval_arithmetic::lies(length, 1, 0x1000_0000_0000)
    &&& -l <= x <= l
    &&& -l <= y <= l
}

/// A coordinate over the length is one at most.
pub proof fn lemma_direction(t: Wide, length: Wide)
    requires
        interval_arithmetic::lies(t, -0x1000_0000_0000, 0x1000_0000_0000),
        interval_arithmetic::lies(length, 1, 0x1000_0000_0000),
        -wide_bounds::exact(length) <= wide_bounds::exact(t) <= wide_bounds::exact(length),
    ensures
        interval_arithmetic::lies(t.quotient(length), -1099511627777, 1099511627777),
{
    let (u, b) = (form_arithmetic::part(), wide_bounds::one());
    let (x, l) = (wide_bounds::exact(t), wide_bounds::exact(length));
    form_arithmetic::lemma_parts();
    interval_arithmetic::lemma_moderate(t, -0x1000_0000_0000, 0x1000_0000_0000);
    interval_arithmetic::lemma_moderate(length, 1, 0x1000_0000_0000);
    interval_arithmetic::lemma_divisor(l, 1, u);
    wide_bounds::a_quotient_is_close(t, length);
    let found = wide_bounds::exact(t.quotient(length));
    let (xb, lb, fl) = (x * b, l * b, found * l);
    assert(-lb <= xb <= lb) by (nonlinear_arith)
        requires
            xb == x * b,
            lb == l * b,
            -l <= x <= l,
            b > 0,
    ;
    assert(-(b + u) <= found <= b + u) by (nonlinear_arith)
        requires
            fl * 0x10_0000_0000_0000 <= lb * 0x10_0000_0000_0001 + l * 0x10_0000_0000_0000,
            -fl * 0x10_0000_0000_0000 <= lb * 0x10_0000_0000_0001 + l * 0x10_0000_0000_0000,
            fl == found * l,
            lb == l * b,
            b == 0x100_0000_0000 * u,
            u >= 16,
            l > 0,
    {
        let top = b * 0x10_0000_0000_0001 + 0x10_0000_0000_0000;
        assert((found * 0x10_0000_0000_0000) * l <= top * l);
        assert((-found * 0x10_0000_0000_0000) * l <= top * l);
        assert(found * 0x10_0000_0000_0000 <= top);
        assert(-found * 0x10_0000_0000_0000 <= top);
    }
}

/// How far the tint moves a coordinate.
pub proof fn lemma_tint(adjustment: WhiteBalance, t: Wide, length: Wide)
    requires
        adjustment.valid(),
        interval_arithmetic::lies(t, -0x1000_0000_0000, 0x1000_0000_0000),
        interval_arithmetic::lies(length, 1, 0x1000_0000_0000),
        -wide_bounds::exact(length) <= wide_bounds::exact(t) <= wide_bounds::exact(length),
    ensures
        interval_arithmetic::lies(
            white_balance::tint_distance(adjustment).product(t.quotient(length)),
            -21990232561,
            21990232561,
        ),
{
    lemma_slider_constants();
    lemma_amount(adjustment.tint);
    let amount = adjustment.tint.widened();
    let (range, hundred) = (
        white_balance::number(white_balance::TINT_RANGE),
        white_balance::number(white_balance::HUNDRED),
    );
    interval_arithmetic::lemma_negated(amount, -109951162777601, 109951162777601);
    interval_arithmetic::lemma_wider(range, 21990232555, 21990232557, -21990232557, 21990232557);
    interval_arithmetic::lemma_product_size(
        amount.negated(),
        range,
        109951162777601,
        21990232557,
        2199023255702,
    );
    interval_arithmetic::lemma_quotient_size(
        amount.negated().product(range),
        hundred,
        2199023255702,
        109951162777599,
        109951162777601,
        21990232559,
    );
    lemma_direction(t, length);
    interval_arithmetic::lemma_product_size(
        white_balance::tint_distance(adjustment),
        t.quotient(length),
        21990232559,
        1099511627777,
        21990232561,
    );
}

/// The white of a valid adjustment is in range: it has some luminance, and
/// its coordinates are those of a color. `length` is the length of the
/// locus's tangent.
pub proof fn the_white_of_an_adjustment_is_in_range(adjustment: WhiteBalance, length: Wide)
    requires
        adjustment.valid(),
        is_length_of(length, white_balance::locus_tangent(adjustment)),
    ensures
        adaptation_laws::is_in_range(white_balance::target_white(adjustment, length)),
{
    let u = form_arithmetic::part();
    form_arithmetic::lemma_parts();
    lemma_kelvin(adjustment);
    let kelvin = white_balance::known_kelvin(adjustment);
    lemma_locus(kelvin);
    lemma_uniform(white_balance::locus(kelvin));
    neutral_laws::lemma_base();
    neutral_laws::lemma_reference_white();
    let base = white_balance::uniform(
        white_balance::locus(white_balance::number(white_balance::D65_KELVIN)),
    );
    let target = white_balance::uniform(white_balance::locus(kelvin));
    let white = white_balance::uniform(
        Pair {
            x: white_balance::number(white_balance::D65_X),
            y: white_balance::number(white_balance::D65_Y),
        },
    );
    interval_arithmetic::lemma_sum_agrees(white.x, target.x);
    interval_arithmetic::lemma_sum_agrees(white.y, target.y);
    interval_arithmetic::lemma_sum_agrees(white.x.sum(target.x), base.x);
    interval_arithmetic::lemma_sum_agrees(white.y.sum(target.y), base.y);
    let shifted = Pair {
        x: white.x.sum(target.x).difference(base.x),
        y: white.y.sum(target.y).difference(base.y),
    };
    let distance = white_balance::tint_distance(adjustment);
    if distance.size().below(white_balance::number(white_balance::EPSILON)) {
        lemma_back(shifted);
    } else {
        let tangent = white_balance::locus_tangent(adjustment);
        lemma_tangent(adjustment);
        wide_bounds::negation_is_exact(tangent.y);
        interval_arithmetic::lemma_negated(tangent.y, -0x1000_0000_0000, 0x1000_0000_0000);
        lemma_tint(adjustment, tangent.y.negated(), length);
        lemma_tint(adjustment, tangent.x, length);
        let across = distance.product(tangent.y.negated().quotient(length));
        let along = distance.product(tangent.x.quotient(length));
        interval_arithmetic::lemma_sum_agrees(shifted.x, across);
        interval_arithmetic::lemma_sum_agrees(shifted.y, along);
        lemma_back(Pair { x: shifted.x.sum(across), y: shifted.y.sum(along) });
    }
}

/// Every valid adjustment of the white balance keeps the luminance of a
/// neutral color, but for one part in 9600. `length` is the length of the
/// locus's tangent.
pub proof fn every_white_balance_keeps_the_luminance_of_white(
    adjustment: WhiteBalance,
    length: Wide,
    inverse: Matrix,
)
    requires
        adjustment.valid(),
        is_length_of(length, white_balance::locus_tangent(adjustment)),
        white_balance::cat16_values().inverse() == Some(inverse),
    ensures
        ({
            let luminance = adaptation_laws::luminance_of_white(
                white_balance::adaptation(adjustment, length, inverse).narrowed(),
            );
            let one = wide_bounds::one() * laws::exact(Scalar { bits: constants::ONE });
            9600 * bounds::absolute(luminance - one) <= one
        }),
{
    the_white_of_an_adjustment_is_in_range(adjustment, length);
    adaptation_laws::the_adaptation_keeps_the_luminance_of_white(
        white_balance::target_white(adjustment, length),
        inverse,
    );
}

} // verus!
