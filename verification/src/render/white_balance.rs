//! White balance: a matrix of linear light from a temperature and a tint.

use vstd::prelude::*;

use crate::document::values::WhiteBalance;
use crate::number::scalar::Scalar;
use crate::number::wide::Wide;
use crate::render::adaptation_laws;
use crate::render::contracts::RenderError;
use crate::text;

verus! {

pub const ZERO: u64 = 0x0000_0000_0000_0000;

pub const ONE: u64 = 0x3ff0_0000_0000_0000;

pub const TWO: u64 = 0x4000_0000_0000_0000;

pub const MINUS_TWO: u64 = 0xc000_0000_0000_0000;

pub const THREE: u64 = 0x4008_0000_0000_0000;

pub const FOUR: u64 = 0x4010_0000_0000_0000;

pub const SIX: u64 = 0x4018_0000_0000_0000;

pub const EIGHT: u64 = 0x4020_0000_0000_0000;

pub const TWELVE: u64 = 0x4028_0000_0000_0000;

pub const HUNDRED: u64 = 0x4059_0000_0000_0000;

pub const TENTH: u64 = 0x3fb9_9999_9999_999a;

pub const MILLION: u64 = 0x412e_8480_0000_0000;

/// The chromaticity of the reference white.
pub const D65_X: u64 = 0x3fd4_0346_dc5d_6388;

pub const D65_Y: u64 = 0x3fd5_0e56_0418_9375;

/// The temperature of the reference white.
pub const D65_KELVIN: u64 = 0x40b9_6800_0000_0000;

/// How far the temperature slider reaches, in mired.
pub const MIRED_RANGE: u64 = 0x405e_0000_0000_0000;

/// How far the tint slider reaches.
pub const TINT_RANGE: u64 = 0x3f94_7ae1_47ae_147b;

pub const EPSILON: u64 = 0x3cb0_0000_0000_0000;

/// The temperatures that the locus is known for.
pub const COLDEST: u64 = 0x409a_0c00_0000_0000;

pub const HOTTEST: u64 = 0x40d8_6a00_0000_0000;

pub const WARM_LIMIT: u64 = 0x40af_4000_0000_0000;

pub const VERY_WARM_LIMIT: u64 = 0x40a1_5c00_0000_0000;

/// The locus below 4000 kelvin, in powers of the inverse temperature.
pub const WX3: u64 = 0xc1af_b974_f800_0000;

pub const WX2: u64 = 0x410c_9bb0_0000_0000;

pub const WX1: u64 = 0x408b_6d90_96bb_98c8;

pub const WX0: u64 = 0x3fc7_074a_771c_970f;

/// The locus above 4000 kelvin, in powers of the inverse temperature.
pub const CX3: u64 = 0xc1e6_8b58_4e80_0000;

pub const CX2: u64 = 0x4140_134e_f333_3333;

pub const CX1: u64 = 0x406b_d44f_765f_d8ae;

pub const CX0: u64 = 0x3fce_c519_7a24_894c;

/// The second coordinate below 2222 kelvin, in powers of the first.
pub const VY3: u64 = 0xbff1_b3bc_fb9e_7170;

pub const VY2: u64 = 0x3ff5_91dc_0046_76dd;

pub const VY1: u64 = 0x4001_7c06_001f_34a4;

pub const VY0: u64 = 0x3fc9_e195_f21a_393c;

/// The second coordinate below 4000 kelvin, in powers of the first.
pub const WY3: u64 = 0xbfee_8eee_44ec_991b;

pub const WY2: u64 = 0x3ff5_fcaa_62bf_92d3;

pub const WY1: u64 = 0x4000_bb20_45f0_a519;

pub const WY0: u64 = 0x3fc5_7044_cc0c_de60;

/// The second coordinate above 4000 kelvin, in powers of the first.
pub const CY3: u64 = 0x4008_a770_bd01_7daf;

pub const CY2: u64 = 0x4017_7e59_1545_0ba3;

pub const CY1: u64 = 0x400e_0250_6e01_904e;

pub const CY0: u64 = 0x3fd7_ae52_ae78_a3d6;

/// A pair of coordinates.
#[derive(Clone, Copy, Debug, PartialEq)]
pub struct Pair {
    pub x: Wide,
    pub y: Wide,
}

/// Three numbers.
#[derive(Clone, Copy, Debug, PartialEq)]
pub struct Triple {
    pub a: Wide,
    pub b: Wide,
    pub c: Wide,
}

/// Three rows of three numbers.
#[derive(Clone, Copy, Debug, PartialEq)]
pub struct Matrix {
    pub first: Triple,
    pub second: Triple,
    pub third: Triple,
}

/// Three narrow numbers.
#[derive(Clone, Copy, Debug, PartialEq)]
pub struct NarrowTriple {
    pub a: Scalar,
    pub b: Scalar,
    pub c: Scalar,
}

/// Three rows of three narrow numbers.
#[derive(Clone, Copy, Debug, PartialEq)]
pub struct NarrowMatrix {
    pub first: NarrowTriple,
    pub second: NarrowTriple,
    pub third: NarrowTriple,
}

pub open spec fn number(bits: u64) -> Wide {
    Wide { bits }
}

fn wide(bits: u64) -> (result: Wide)
    ensures
        result == number(bits),
{
    Wide { bits }
}

/// From tristimulus values to the responses of the cones.
pub open spec fn cat16_values() -> Matrix {
    Matrix {
        first: Triple {
            a: Wide { bits: 0x3fd9_aeb3_dd11_be6e },
            b: Wide { bits: 0x3fe4_ce37_9b77_c02b },
            c: Wide { bits: 0xbfaa_5918_a009_f623 },
        },
        second: Triple {
            a: Wide { bits: 0xbfd0_0464_12cf_0f9d },
            b: Wide { bits: 0x3ff3_4547_9d4d_8341 },
            c: Wide { bits: 0x3fa7_7a2c_ecc8_14d7 },
        },
        third: Triple {
            a: Wide { bits: 0xbf61_07fa_a044_ae86 },
            b: Wide { bits: 0x3fa9_103c_8e25_c811 },
            c: Wide { bits: 0x3fee_8004_31bd_e82d },
        },
    }
}

fn cat16() -> (matrix: Matrix)
    ensures
        matrix == cat16_values(),
{
    Matrix {
        first: Triple {
            a: Wide { bits: 0x3fd9_aeb3_dd11_be6e },
            b: Wide { bits: 0x3fe4_ce37_9b77_c02b },
            c: Wide { bits: 0xbfaa_5918_a009_f623 },
        },
        second: Triple {
            a: Wide { bits: 0xbfd0_0464_12cf_0f9d },
            b: Wide { bits: 0x3ff3_4547_9d4d_8341 },
            c: Wide { bits: 0x3fa7_7a2c_ecc8_14d7 },
        },
        third: Triple {
            a: Wide { bits: 0xbf61_07fa_a044_ae86 },
            b: Wide { bits: 0x3fa9_103c_8e25_c811 },
            c: Wide { bits: 0x3fee_8004_31bd_e82d },
        },
    }
}

/// From linear light to tristimulus values.
pub open spec fn rgb_to_xyz_values() -> Matrix {
    Matrix {
        first: Triple {
            a: Wide { bits: 0x3fda_65af_8741_a841 },
            b: Wide { bits: 0x3fd6_e286_ddd5_32cd },
            c: Wide { bits: 0x3fc7_1893_74bc_6a7f },
        },
        second: Triple {
            a: Wide { bits: 0x3fcb_38dd_971f_6bd6 },
            b: Wide { bits: 0x3fe6_e286_ddd5_32cd },
            c: Wide { bits: 0x3fb2_7a0f_9096_bb99 },
        },
        third: Triple {
            a: Wide { bits: 0x3f93_cc44_10d1_089c },
            b: Wide { bits: 0x3fbe_835d_edf1_e083 },
            c: Wide { bits: 0x3fee_68e4_24d8_269d },
        },
    }
}

fn rgb_to_xyz() -> (matrix: Matrix)
    ensures
        matrix == rgb_to_xyz_values(),
{
    Matrix {
        first: Triple {
            a: Wide { bits: 0x3fda_65af_8741_a841 },
            b: Wide { bits: 0x3fd6_e286_ddd5_32cd },
            c: Wide { bits: 0x3fc7_1893_74bc_6a7f },
        },
        second: Triple {
            a: Wide { bits: 0x3fcb_38dd_971f_6bd6 },
            b: Wide { bits: 0x3fe6_e286_ddd5_32cd },
            c: Wide { bits: 0x3fb2_7a0f_9096_bb99 },
        },
        third: Triple {
            a: Wide { bits: 0x3f93_cc44_10d1_089c },
            b: Wide { bits: 0x3fbe_835d_edf1_e083 },
            c: Wide { bits: 0x3fee_68e4_24d8_269d },
        },
    }
}

/// From tristimulus values to linear light.
pub open spec fn xyz_to_rgb_values() -> Matrix {
    Matrix {
        first: Triple {
            a: Wide { bits: 0x4009_ec73_4069_7c9b },
            b: Wide { bits: 0xbff8_981e_8a2e_c28b },
            c: Wide { bits: 0xbfdf_e7f0_3ec1_dcaf },
        },
        second: Triple {
            a: Wide { bits: 0xbfef_043a_2163_fdd6 },
            b: Wide { bits: 0x3ffe_0423_e68f_15b2 },
            c: Wide { bits: 0x3fa5_46d3_f9e7_b80b },
        },
        third: Triple {
            a: Wide { bits: 0x3fac_7d4a_ae79_fb6f },
            b: Wide { bits: 0xbfca_1d85_4c04_bb51 },
            c: Wide { bits: 0x3ff0_ea64_f8a8_1cea },
        },
    }
}

fn xyz_to_rgb() -> (matrix: Matrix)
    ensures
        matrix == xyz_to_rgb_values(),
{
    Matrix {
        first: Triple {
            a: Wide { bits: 0x4009_ec73_4069_7c9b },
            b: Wide { bits: 0xbff8_981e_8a2e_c28b },
            c: Wide { bits: 0xbfdf_e7f0_3ec1_dcaf },
        },
        second: Triple {
            a: Wide { bits: 0xbfef_043a_2163_fdd6 },
            b: Wide { bits: 0x3ffe_0423_e68f_15b2 },
            c: Wide { bits: 0x3fa5_46d3_f9e7_b80b },
        },
        third: Triple {
            a: Wide { bits: 0x3fac_7d4a_ae79_fb6f },
            b: Wide { bits: 0xbfca_1d85_4c04_bb51 },
            c: Wide { bits: 0x3ff0_ea64_f8a8_1cea },
        },
    }
}

impl Triple {
    pub open spec fn dot(self, other: Triple) -> Wide {
        self.a.product(other.a).sum(self.b.product(other.b)).sum(self.c.product(other.c))
    }

    fn times(self, other: Triple) -> (result: Wide)
        ensures
            result == self.dot(other),
    {
        self.a.times(other.a).plus(self.b.times(other.b)).plus(self.c.times(other.c))
    }

    pub open spec fn narrowed(self) -> NarrowTriple {
        NarrowTriple { a: self.a.narrowed(), b: self.b.narrowed(), c: self.c.narrowed() }
    }

    fn narrow(self) -> (result: NarrowTriple)
        ensures
            result == self.narrowed(),
    {
        NarrowTriple { a: self.a.narrow(), b: self.b.narrow(), c: self.c.narrow() }
    }
}

impl Matrix {
    /// The columns as rows.
    pub open spec fn flipped(self) -> Matrix {
        Matrix {
            first: Triple { a: self.first.a, b: self.second.a, c: self.third.a },
            second: Triple { a: self.first.b, b: self.second.b, c: self.third.b },
            third: Triple { a: self.first.c, b: self.second.c, c: self.third.c },
        }
    }

    fn flip(self) -> (result: Matrix)
        ensures
            result == self.flipped(),
    {
        Matrix {
            first: Triple { a: self.first.a, b: self.second.a, c: self.third.a },
            second: Triple { a: self.first.b, b: self.second.b, c: self.third.b },
            third: Triple { a: self.first.c, b: self.second.c, c: self.third.c },
        }
    }

    /// The image of a vector.
    pub open spec fn applied(self, vector: Triple) -> Triple {
        Triple { a: self.first.dot(vector), b: self.second.dot(vector), c: self.third.dot(vector) }
    }

    fn apply(self, vector: Triple) -> (result: Triple)
        ensures
            result == self.applied(vector),
    {
        Triple {
            a: self.first.times(vector),
            b: self.second.times(vector),
            c: self.third.times(vector),
        }
    }

    /// The product of two matrices: every row with every column.
    pub open spec fn product(self, other: Matrix) -> Matrix {
        let columns = other.flipped();
        Matrix {
            first: columns.applied_to_row(self.first),
            second: columns.applied_to_row(self.second),
            third: columns.applied_to_row(self.third),
        }
    }

    /// A row with every row of this matrix.
    pub open spec fn applied_to_row(self, row: Triple) -> Triple {
        Triple { a: row.dot(self.first), b: row.dot(self.second), c: row.dot(self.third) }
    }

    fn multiply(self, other: Matrix) -> (result: Matrix)
        ensures
            result == self.product(other),
    {
        let columns: Matrix = other.flip();
        Matrix {
            first: columns.apply_to_row(self.first),
            second: columns.apply_to_row(self.second),
            third: columns.apply_to_row(self.third),
        }
    }

    fn apply_to_row(self, row: Triple) -> (result: Triple)
        ensures
            result == self.applied_to_row(row),
    {
        Triple { a: row.times(self.first), b: row.times(self.second), c: row.times(self.third) }
    }

    pub open spec fn determinant(self) -> Wide {
        let (m, n, o) = (self.first, self.second, self.third);
        m.a.product(minor(n.b, o.c, n.c, o.b)).difference(
            m.b.product(minor(n.a, o.c, n.c, o.a)),
        ).sum(m.c.product(minor(n.a, o.b, n.b, o.a)))
    }

    /// The inverse, where the determinant is not nothing.
    pub open spec fn inverse(self) -> Option<Matrix> {
        let (m, n, o) = (self.first, self.second, self.third);
        if self.determinant().size().below(number(EPSILON)) {
            None
        } else {
            let scale = number(ONE).quotient(self.determinant());
            Some(
                Matrix {
                    first: Triple {
                        a: minor(n.b, o.c, n.c, o.b).product(scale),
                        b: minor(m.c, o.b, m.b, o.c).product(scale),
                        c: minor(m.b, n.c, m.c, n.b).product(scale),
                    },
                    second: Triple {
                        a: minor(n.c, o.a, n.a, o.c).product(scale),
                        b: minor(m.a, o.c, m.c, o.a).product(scale),
                        c: minor(m.c, n.a, m.a, n.c).product(scale),
                    },
                    third: Triple {
                        a: minor(n.a, o.b, n.b, o.a).product(scale),
                        b: minor(m.b, o.a, m.a, o.b).product(scale),
                        c: minor(m.a, n.b, m.b, n.a).product(scale),
                    },
                },
            )
        }
    }

    fn invert(self) -> (result: Option<Matrix>)
        ensures
            result == self.inverse(),
    {
        let (m, n, o): (Triple, Triple, Triple) = (self.first, self.second, self.third);
        let determinant: Wide = m.a.times(cross(n.b, o.c, n.c, o.b)).minus(
            m.b.times(cross(n.a, o.c, n.c, o.a)),
        ).plus(m.c.times(cross(n.a, o.b, n.b, o.a)));
        if determinant.abs().less(wide(EPSILON)) {
            return None;
        }
        let scale: Wide = wide(ONE).over(determinant);
        Some(
            Matrix {
                first: Triple {
                    a: cross(n.b, o.c, n.c, o.b).times(scale),
                    b: cross(m.c, o.b, m.b, o.c).times(scale),
                    c: cross(m.b, n.c, m.c, n.b).times(scale),
                },
                second: Triple {
                    a: cross(n.c, o.a, n.a, o.c).times(scale),
                    b: cross(m.a, o.c, m.c, o.a).times(scale),
                    c: cross(m.c, n.a, m.a, n.c).times(scale),
                },
                third: Triple {
                    a: cross(n.a, o.b, n.b, o.a).times(scale),
                    b: cross(m.b, o.a, m.a, o.b).times(scale),
                    c: cross(m.a, n.b, m.b, n.a).times(scale),
                },
            },
        )
    }

    pub open spec fn narrowed(self) -> NarrowMatrix {
        NarrowMatrix {
            first: self.first.narrowed(),
            second: self.second.narrowed(),
            third: self.third.narrowed(),
        }
    }

    fn narrow(self) -> (result: NarrowMatrix)
        ensures
            result == self.narrowed(),
    {
        NarrowMatrix {
            first: self.first.narrow(),
            second: self.second.narrow(),
            third: self.third.narrow(),
        }
    }
}

/// The determinant of two rows of two: `a * b - c * d`.
pub open spec fn minor(a: Wide, b: Wide, c: Wide, d: Wide) -> Wide {
    a.product(b).difference(c.product(d))
}

fn cross(a: Wide, b: Wide, c: Wide, d: Wide) -> (result: Wide)
    ensures
        result == minor(a, b, c, d),
{
    a.times(b).minus(c.times(d))
}

pub open spec fn squared(x: Wide) -> Wide {
    x.product(x)
}

pub open spec fn cubed(x: Wide) -> Wide {
    x.product(x.product(x))
}

fn square(x: Wide) -> (result: Wide)
    ensures
        result == squared(x),
{
    x.times(x)
}

fn cube(x: Wide) -> (result: Wide)
    ensures
        result == cubed(x),
{
    x.times(x.times(x))
}

/// The chromaticity of a black body of a temperature.
pub open spec fn locus(kelvin: Wide) -> Pair {
    let x = if kelvin.at_most(number(WARM_LIMIT)) {
        number(WX3).quotient(cubed(kelvin)).difference(
            number(WX2).quotient(squared(kelvin)),
        ).sum(number(WX1).quotient(kelvin)).sum(number(WX0))
    } else {
        number(CX3).quotient(cubed(kelvin)).sum(number(CX2).quotient(squared(kelvin))).sum(
            number(CX1).quotient(kelvin),
        ).sum(number(CX0))
    };
    let y = if kelvin.at_most(number(VERY_WARM_LIMIT)) {
        number(VY3).product(cubed(x)).difference(number(VY2).product(squared(x))).sum(
            number(VY1).product(x),
        ).difference(number(VY0))
    } else if kelvin.at_most(number(WARM_LIMIT)) {
        number(WY3).product(cubed(x)).difference(number(WY2).product(squared(x))).sum(
            number(WY1).product(x),
        ).difference(number(WY0))
    } else {
        number(CY3).product(cubed(x)).difference(number(CY2).product(squared(x))).sum(
            number(CY1).product(x),
        ).difference(number(CY0))
    };
    Pair { x, y }
}

fn planckian_xy(kelvin: Wide) -> (result: Pair)
    ensures
        result == locus(kelvin),
{
    let x: Wide = if kelvin.less_or_equal(wide(WARM_LIMIT)) {
        wide(WX3).over(cube(kelvin)).minus(wide(WX2).over(square(kelvin))).plus(
            wide(WX1).over(kelvin),
        ).plus(wide(WX0))
    } else {
        wide(CX3).over(cube(kelvin)).plus(wide(CX2).over(square(kelvin))).plus(
            wide(CX1).over(kelvin),
        ).plus(wide(CX0))
    };
    let y: Wide = if kelvin.less_or_equal(wide(VERY_WARM_LIMIT)) {
        wide(VY3).times(cube(x)).minus(wide(VY2).times(square(x))).plus(wide(VY1).times(x)).minus(
            wide(VY0),
        )
    } else if kelvin.less_or_equal(wide(WARM_LIMIT)) {
        wide(WY3).times(cube(x)).minus(wide(WY2).times(square(x))).plus(wide(WY1).times(x)).minus(
            wide(WY0),
        )
    } else {
        wide(CY3).times(cube(x)).minus(wide(CY2).times(square(x))).plus(wide(CY1).times(x)).minus(
            wide(CY0),
        )
    };
    Pair { x, y }
}

/// Coordinates in the uniform chromaticity scale.
pub open spec fn uniform(xy: Pair) -> Pair {
    let denominator = number(MINUS_TWO).product(xy.x).sum(number(TWELVE).product(xy.y)).sum(
        number(THREE),
    );
    Pair {
        x: number(FOUR).product(xy.x).quotient(denominator),
        y: number(SIX).product(xy.y).quotient(denominator),
    }
}

fn xy_to_uv(xy: Pair) -> (result: Pair)
    ensures
        result == uniform(xy),
{
    let denominator: Wide = wide(MINUS_TWO).times(xy.x).plus(wide(TWELVE).times(xy.y)).plus(
        wide(THREE),
    );
    Pair {
        x: wide(FOUR).times(xy.x).over(denominator),
        y: wide(SIX).times(xy.y).over(denominator),
    }
}

/// Coordinates from the uniform chromaticity scale.
pub open spec fn from_uniform(uv: Pair) -> Pair {
    let denominator = number(TWO).product(uv.x).difference(number(EIGHT).product(uv.y)).sum(
        number(FOUR),
    );
    Pair {
        x: number(THREE).product(uv.x).quotient(denominator),
        y: number(TWO).product(uv.y).quotient(denominator),
    }
}

fn uv_to_xy(uv: Pair) -> (result: Pair)
    ensures
        result == from_uniform(uv),
{
    let denominator: Wide = wide(TWO).times(uv.x).minus(wide(EIGHT).times(uv.y)).plus(wide(FOUR));
    Pair {
        x: wide(THREE).times(uv.x).over(denominator),
        y: wide(TWO).times(uv.y).over(denominator),
    }
}

/// The tristimulus values of a chromaticity at a luminance of one.
pub open spec fn tristimulus(xy: Pair) -> Triple {
    Triple {
        a: xy.x.quotient(xy.y),
        b: number(ONE),
        c: number(ONE).difference(xy.x).difference(xy.y).quotient(xy.y),
    }
}

fn xy_to_xyz(xy: Pair) -> (result: Triple)
    ensures
        result == tristimulus(xy),
{
    Triple {
        a: xy.x.over(xy.y),
        b: wide(ONE),
        c: wide(ONE).minus(xy.x).minus(xy.y).over(xy.y),
    }
}

/// The temperature that a slider position stands for: even steps in mired
/// round the reference white.
pub open spec fn target_kelvin(adjustment: WhiteBalance) -> Wide {
    let mired = number(MILLION).quotient(number(D65_KELVIN)).sum(
        adjustment.temperature.widened().product(number(MIRED_RANGE)).quotient(number(HUNDRED)),
    );
    number(MILLION).quotient(mired)
}

fn temperature_of(adjustment: WhiteBalance) -> (result: Wide)
    ensures
        result == target_kelvin(adjustment),
{
    let mired: Wide = wide(MILLION).over(wide(D65_KELVIN)).plus(
        adjustment.temperature.widen().times(wide(MIRED_RANGE)).over(wide(HUNDRED)),
    );
    wide(MILLION).over(mired)
}

/// How far the tint moves the white away from the locus.
pub open spec fn tint_distance(adjustment: WhiteBalance) -> Wide {
    adjustment.tint.widened().negated().product(number(TINT_RANGE)).quotient(number(HUNDRED))
}

fn distance_of(adjustment: WhiteBalance) -> (result: Wide)
    ensures
        result == tint_distance(adjustment),
{
    adjustment.tint.widen().negate().times(wide(TINT_RANGE)).over(wide(HUNDRED))
}

/// The temperature within what the locus is known for.
pub open spec fn known_kelvin(adjustment: WhiteBalance) -> Wide {
    target_kelvin(adjustment).clamped(number(COLDEST), number(HOTTEST))
}

/// The direction of the locus at the temperature of an adjustment.
pub open spec fn locus_tangent(adjustment: WhiteBalance) -> Pair {
    let mired = number(MILLION).quotient(known_kelvin(adjustment));
    let before = uniform(locus(number(MILLION).quotient(mired.difference(number(TENTH)))));
    let after = uniform(locus(number(MILLION).quotient(mired.sum(number(TENTH)))));
    Pair { x: after.x.difference(before.x), y: after.y.difference(before.y) }
}

/// Finds the direction of the locus at the temperature of an adjustment. The
/// tint moves the white at right angles to it.
pub fn tint_tangent(adjustment: WhiteBalance) -> (result: Pair)
    ensures
        result == locus_tangent(adjustment),
{
    let kelvin: Wide = temperature_of(adjustment).clamp(wide(COLDEST), wide(HOTTEST));
    let mired: Wide = wide(MILLION).over(kelvin);
    let before: Pair = xy_to_uv(planckian_xy(wide(MILLION).over(mired.minus(wide(TENTH)))));
    let after: Pair = xy_to_uv(planckian_xy(wide(MILLION).over(mired.plus(wide(TENTH)))));
    Pair { x: after.x.minus(before.x), y: after.y.minus(before.y) }
}

/// The chromaticity of the white of an adjustment. `length` is the length of
/// the locus's tangent there.
pub open spec fn target_white(adjustment: WhiteBalance, length: Wide) -> Pair {
    let base = uniform(locus(number(D65_KELVIN)));
    let target = uniform(locus(known_kelvin(adjustment)));
    let white = uniform(Pair { x: number(D65_X), y: number(D65_Y) });
    let shifted = Pair {
        x: white.x.sum(target.x).difference(base.x),
        y: white.y.sum(target.y).difference(base.y),
    };
    let distance = tint_distance(adjustment);
    if distance.size().below(number(EPSILON)) {
        from_uniform(shifted)
    } else {
        let tangent = locus_tangent(adjustment);
        from_uniform(
            Pair {
                x: shifted.x.sum(distance.product(tangent.y.negated().quotient(length))),
                y: shifted.y.sum(distance.product(tangent.x.quotient(length))),
            },
        )
    }
}

fn temperature_tint_xy(adjustment: WhiteBalance, length: Wide) -> (result: Pair)
    ensures
        result == target_white(adjustment, length),
{
    let kelvin: Wide = temperature_of(adjustment).clamp(wide(COLDEST), wide(HOTTEST));
    let base: Pair = xy_to_uv(planckian_xy(wide(D65_KELVIN)));
    let target: Pair = xy_to_uv(planckian_xy(kelvin));
    let white: Pair = xy_to_uv(Pair { x: wide(D65_X), y: wide(D65_Y) });
    let shifted: Pair = Pair {
        x: white.x.plus(target.x).minus(base.x),
        y: white.y.plus(target.y).minus(base.y),
    };
    let distance: Wide = distance_of(adjustment);
    if distance.abs().less(wide(EPSILON)) {
        return uv_to_xy(shifted);
    }
    let tangent: Pair = tint_tangent(adjustment);
    uv_to_xy(
        Pair {
            x: shifted.x.plus(distance.times(tangent.y.negate().over(length))),
            y: shifted.y.plus(distance.times(tangent.x.over(length))),
        },
    )
}

/// The responses of the cones to the reference white.
pub open spec fn reference_cone() -> Triple {
    cat16_values().applied(tristimulus(Pair { x: number(D65_X), y: number(D65_Y) }))
}

/// Whether a cone does not respond to the reference white.
pub open spec fn has_dead_cone(cone: Triple) -> bool {
    ||| cone.a.size().below(number(EPSILON))
    ||| cone.b.size().below(number(EPSILON))
    ||| cone.c.size().below(number(EPSILON))
}

/// The adaptation of linear light to the white of an adjustment.
pub open spec fn adaptation(adjustment: WhiteBalance, length: Wide, inverse: Matrix) -> Matrix {
    adaptation_to(target_white(adjustment, length), inverse)
}

/// The adaptation of linear light to a white.
pub open spec fn adaptation_to(white: Pair, inverse: Matrix) -> Matrix {
    let source = reference_cone();
    let target = cat16_values().applied(tristimulus(white));
    let zero = number(ZERO);
    let scale = Matrix {
        first: Triple { a: target.a.quotient(source.a), b: zero, c: zero },
        second: Triple { a: zero, b: target.b.quotient(source.b), c: zero },
        third: Triple { a: zero, b: zero, c: target.c.quotient(source.c) },
    };
    xyz_to_rgb_values().product(inverse.product(scale).product(cat16_values())).product(
        rgb_to_xyz_values(),
    )
}

/// Makes the matrix of a white balance. `length` is the length of the tangent
/// that `tint_tangent` gives.
pub fn white_balance_rgb_matrix(adjustment: WhiteBalance, length: Wide) -> (result: Result<
    NarrowMatrix,
    RenderError,
>)
    ensures
        ({
            &&& result matches Ok(matrix)
            &&& cat16_values().inverse() matches Some(inverse)
            &&& matrix == adaptation(adjustment, length, inverse).narrowed()
        }),
{
    proof {
        adaptation_laws::the_adaptation_is_always_possible();
    }
    let white: Pair = Pair { x: wide(D65_X), y: wide(D65_Y) };
    let source: Triple = cat16().apply(xy_to_xyz(white));
    let target: Triple = cat16().apply(xy_to_xyz(temperature_tint_xy(adjustment, length)));
    if source.a.abs().less(wide(EPSILON)) || source.b.abs().less(wide(EPSILON))
        || source.c.abs().less(wide(EPSILON)) {
        return Err(
            RenderError::Engine(text::copied("CAT16 source white produced a zero cone response")),
        );
    }
    let zero: Wide = wide(ZERO);
    let scale: Matrix = Matrix {
        first: Triple { a: target.a.over(source.a), b: zero, c: zero },
        second: Triple { a: zero, b: target.b.over(source.b), c: zero },
        third: Triple { a: zero, b: zero, c: target.c.over(source.c) },
    };
    match cat16().invert() {
        None => Err(RenderError::Engine(text::copied("CAT16 matrix could not be inverted"))),
        Some(inverse) => {
            let adapted: Matrix = inverse.multiply(scale).multiply(cat16());
            Ok(xyz_to_rgb().multiply(adapted).multiply(rgb_to_xyz()).narrow())
        },
    }
}

} // verus!
