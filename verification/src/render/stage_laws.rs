//! Which operations are rendered, and with which parameters.

use vstd::prelude::*;

use crate::document::curve_laws;
use crate::document::list;
use crate::document::operation::{Kind, Operation};
use crate::document::parameter_laws;
use crate::document::turn_laws;
use crate::number::bounds;
use crate::number::constants;
use crate::number::laws;
use crate::number::rounding;
use crate::number::scalar::Scalar;
use crate::render::plan;
use crate::render::plan::Stage;

verus! {

/// What a list behind another contains.
proof fn lemma_contains(first: Seq<Stage>, second: Seq<Stage>, stage: Stage)
    ensures
        (first + second).contains(stage) <==> first.contains(stage) || second.contains(stage),
{
    let both = first + second;
    if first.contains(stage) {
        let i = choose|i: int| 0 <= i < first.len() && first[i] == stage;
        assert(both[i] == stage);
    }
    if second.contains(stage) {
        let i = choose|i: int| 0 <= i < second.len() && second[i] == stage;
        assert(both[first.len() + i] == stage);
    }
    if both.contains(stage) {
        let i = choose|i: int| 0 <= i < both.len() && both[i] == stage;
        if i < first.len() {
            assert(first[i] == stage);
        } else {
            assert(second[i - first.len()] == stage);
        }
    }
}

/// What a stage that may be left out contains.
proof fn lemma_only(condition: bool, only: Stage, stage: Stage)
    ensures
        plan::only_if(condition, only).contains(stage) <==> condition && stage == only,
{
    if condition {
        assert(plan::only_if(condition, only)[0] == only);
    }
}

/// What of the parts of a render a stage is in.
proof fn lemma_parts(ops: Seq<Operation>, stage: Stage)
    ensures
        plan::all_stages(ops).contains(stage) <==> {
            ||| plan::rotate_stage(ops).contains(stage)
            ||| plan::straighten_stage(ops).contains(stage)
            ||| plan::crop_stage(ops).contains(stage)
            ||| plan::denoise_stage(ops).contains(stage)
            ||| plan::white_balance_stage(ops).contains(stage)
            ||| plan::exposure_stage(ops).contains(stage)
            ||| plan::shadows_highlights_stage(ops).contains(stage)
            ||| plan::contrast_stage(ops).contains(stage)
            ||| plan::tone_curve_stage(ops).contains(stage)
            ||| plan::saturation_stage(ops).contains(stage)
            ||| plan::sharpness_stage(ops).contains(stage)
            ||| plan::vignette_stage(ops).contains(stage)
            ||| plan::frame_stage(ops).contains(stage)
        },
{
    let (s0, s1, s2, s3) = (
        plan::rotate_stage(ops),
        plan::straighten_stage(ops),
        plan::crop_stage(ops),
        plan::denoise_stage(ops),
    );
    let (s4, s5, s6) = (
        plan::white_balance_stage(ops),
        plan::exposure_stage(ops),
        plan::shadows_highlights_stage(ops),
    );
    let (s7, s8) = (plan::contrast_stage(ops), plan::tone_curve_stage(ops));
    let (s9, s10, s11, s12) = (
        plan::saturation_stage(ops),
        plan::sharpness_stage(ops),
        plan::vignette_stage(ops),
        plan::frame_stage(ops),
    );
    lemma_contains(s0, s1, stage);
    lemma_contains(s0 + s1, s2, stage);
    lemma_contains(s0 + s1 + s2, s3, stage);
    lemma_contains(s4, s5, stage);
    lemma_contains(s4 + s5, s6, stage);
    lemma_contains(s7, s8, stage);
    lemma_contains(s9, s10, stage);
    lemma_contains(s9 + s10, s11, stage);
    lemma_contains(s7 + s8, plan::perceptual_stages(ops), stage);
    lemma_contains(s7 + s8 + plan::perceptual_stages(ops), s12, stage);
    lemma_contains(plan::through_denoise(ops), plan::light_stages(ops), stage);
    lemma_contains(
        plan::through_denoise(ops) + plan::light_stages(ops),
        plan::after_shadows_highlights(ops),
        stage,
    );
}

/// Whether an amount is further from zero than the next number is from one.
pub open spec fn is_felt(amount: Scalar) -> bool {
    0x80_0000 * bounds::absolute(laws::exact(amount)) > turn_laws::whole()
}

/// An amount that is felt is noticed.
proof fn lemma_felt(amount: Scalar)
    requires
        amount.finite(),
    ensures
        plan::noticeable(amount) <==> is_felt(amount),
        laws::exact(amount) >= 0 ==> (plan::substantial(amount) <==> is_felt(amount)),
{
    let epsilon = Scalar { bits: constants::EPSILON };
    turn_laws::lemma_sizes();
    curve_laws::lemma_constants();
    rounding::lemma_zero_magnitude(24);
    laws::order_is_exact(epsilon, amount.size());
    laws::order_is_exact(epsilon, amount);
}

/// The operation of a kind that counts, if any.
proof fn lemma_current(operations: Seq<Operation>, kind: Kind)
    requires
        list::all_valid(operations),
    ensures
        list::current(operations, kind) matches Some(found) ==> {
            &&& found.valid()
            &&& found.kind() == kind
        },
{
    list::lemma_last_of(operations, kind);
    let i = list::last_of(operations, kind);
    if i >= 0 {
        assert(operations[i].valid());
    }
}

/// Whether the operation that counts of a kind is one, and is rendered.
pub open spec fn counts(operations: Seq<Operation>, operation: Operation, felt: bool) -> bool {
    list::current(operations, operation.kind()) == Some(operation) && felt
}

/// A render goes through a stage where the operation of its kind that counts
/// is felt, with the parameters of that operation, and through no other.
#[verifier::rlimit(40)]
pub proof fn what_is_felt_is_rendered(operations: Seq<Operation>, stage: Stage)
    requires
        list::all_valid(operations),
    ensures
        plan::all_stages(operations).contains(stage) <==> match stage {
            Stage::Rotate { quarter_turns } => counts(
                operations,
                Operation::Rotate { quarter_turns },
                quarter_turns != 0,
            ),
            Stage::Straighten { degrees } => counts(
                operations,
                Operation::Straighten { degrees },
                is_felt(degrees),
            ),
            Stage::Crop { rect } => counts(
                operations,
                Operation::Crop { rect },
                !rect.covers_all(),
            ),
            Stage::Denoise { luma, color } => counts(
                operations,
                Operation::Denoise { luma_denoise: luma, color_denoise: color },
                is_felt(luma) || is_felt(color),
            ),
            Stage::WhiteBalance { adjustment } => counts(
                operations,
                Operation::WhiteBalance { adjustment },
                !adjustment.has_no_effect(),
            ),
            Stage::Exposure { ev } => counts(operations, Operation::Exposure { ev }, is_felt(ev)),
            Stage::ShadowsHighlights { adjustment } => counts(
                operations,
                Operation::ShadowsHighlights { adjustment },
                !adjustment.has_no_effect(),
            ),
            Stage::Contrast { amount } => counts(
                operations,
                Operation::Contrast { amount },
                is_felt(amount),
            ),
            Stage::ToneCurve { curve } => counts(
                operations,
                Operation::ToneCurve { curve },
                !curve.has_no_effect(),
            ),
            Stage::Saturation { amount } => counts(
                operations,
                Operation::Saturation { amount },
                is_felt(amount),
            ),
            Stage::Sharpness { amount } => counts(
                operations,
                Operation::Sharpness { amount },
                is_felt(amount),
            ),
            Stage::Vignette { strength } => counts(
                operations,
                Operation::Vignette { strength },
                is_felt(strength),
            ),
            Stage::Frame { width_pct, color } => counts(
                operations,
                Operation::Frame { width_pct, color },
                is_felt(width_pct),
            ),
        },
{
    let ops = operations;
    lemma_parts(ops, stage);
    lemma_first_part(ops, stage);
    lemma_second_part(ops, stage);
    lemma_third_part(ops, stage);
}

/// The stages up to denoising.
proof fn lemma_first_part(ops: Seq<Operation>, stage: Stage)
    requires
        list::all_valid(ops),
    ensures
        plan::rotate_stage(ops).contains(stage) <==> (stage matches Stage::Rotate { quarter_turns }
            && counts(ops, Operation::Rotate { quarter_turns }, quarter_turns != 0)),
        plan::straighten_stage(ops).contains(stage) <==> (stage matches Stage::Straighten {
            degrees,
        } && counts(ops, Operation::Straighten { degrees }, is_felt(degrees))),
        plan::crop_stage(ops).contains(stage) <==> (stage matches Stage::Crop { rect } && counts(
            ops,
            Operation::Crop { rect },
            !rect.covers_all(),
        )),
        plan::denoise_stage(ops).contains(stage) <==> (stage matches Stage::Denoise { luma, color }
            && counts(
            ops,
            Operation::Denoise { luma_denoise: luma, color_denoise: color },
            is_felt(luma) || is_felt(color),
        )),
{
    lemma_current(ops, Kind::Rotate);
    lemma_current(ops, Kind::Straighten);
    lemma_current(ops, Kind::Crop);
    lemma_current(ops, Kind::Denoise);
    if let Some(Operation::Rotate { quarter_turns }) = list::current(ops, Kind::Rotate) {
        lemma_only(
            quarter_turns % 4 != 0,
            Stage::Rotate { quarter_turns: (quarter_turns % 4) as u8 },
            stage,
        );
    } else {
        lemma_only(false, Stage::Rotate { quarter_turns: 0 }, stage);
    }
    if let Some(Operation::Straighten { degrees }) = list::current(ops, Kind::Straighten) {
        lemma_felt(degrees);
        lemma_only(plan::noticeable(degrees), Stage::Straighten { degrees }, stage);
    }
    if let Some(Operation::Crop { rect }) = list::current(ops, Kind::Crop) {
        lemma_only(!rect.covers_all(), Stage::Crop { rect }, stage);
    }
    if let Some(Operation::Denoise { luma_denoise, color_denoise }) = list::current(
        ops,
        Kind::Denoise,
    ) {
        parameter_laws::parameters_have_ranges(
            Operation::Denoise { luma_denoise, color_denoise },
        );
        lemma_zero_times();
        lemma_felt(luma_denoise);
        lemma_felt(color_denoise);
        lemma_only(
            plan::substantial(luma_denoise) || plan::substantial(color_denoise),
            Stage::Denoise { luma: luma_denoise, color: color_denoise },
            stage,
        );
    }
}

proof fn lemma_zero_times()
    ensures
        0 * turn_laws::whole() == 0,
{
    assert(0 * turn_laws::whole() == 0) by (nonlinear_arith);
}

/// The stages between denoising and contrast.
proof fn lemma_second_part(ops: Seq<Operation>, stage: Stage)
    requires
        list::all_valid(ops),
    ensures
        plan::white_balance_stage(ops).contains(stage) <==> (stage matches Stage::WhiteBalance {
            adjustment,
        } && counts(ops, Operation::WhiteBalance { adjustment }, !adjustment.has_no_effect())),
        plan::exposure_stage(ops).contains(stage) <==> (stage matches Stage::Exposure { ev }
            && counts(ops, Operation::Exposure { ev }, is_felt(ev))),
        plan::shadows_highlights_stage(ops).contains(stage) <==> (
        stage matches Stage::ShadowsHighlights { adjustment } && counts(
            ops,
            Operation::ShadowsHighlights { adjustment },
            !adjustment.has_no_effect(),
        )),
        plan::contrast_stage(ops).contains(stage) <==> (stage matches Stage::Contrast { amount }
            && counts(ops, Operation::Contrast { amount }, is_felt(amount))),
        plan::tone_curve_stage(ops).contains(stage) <==> (stage matches Stage::ToneCurve { curve }
            && counts(ops, Operation::ToneCurve { curve }, !curve.has_no_effect())),
{
    lemma_current(ops, Kind::WhiteBalance);
    lemma_current(ops, Kind::Exposure);
    lemma_current(ops, Kind::ShadowsHighlights);
    lemma_current(ops, Kind::Contrast);
    lemma_current(ops, Kind::ToneCurve);
    if let Some(Operation::WhiteBalance { adjustment }) = list::current(ops, Kind::WhiteBalance) {
        lemma_only(!adjustment.has_no_effect(), Stage::WhiteBalance { adjustment }, stage);
    }
    if let Some(Operation::Exposure { ev }) = list::current(ops, Kind::Exposure) {
        lemma_felt(ev);
        lemma_only(plan::noticeable(ev), Stage::Exposure { ev }, stage);
    }
    if let Some(Operation::ShadowsHighlights { adjustment }) = list::current(
        ops,
        Kind::ShadowsHighlights,
    ) {
        lemma_only(!adjustment.has_no_effect(), Stage::ShadowsHighlights { adjustment }, stage);
    }
    if let Some(Operation::Contrast { amount }) = list::current(ops, Kind::Contrast) {
        lemma_felt(amount);
        lemma_only(plan::noticeable(amount), Stage::Contrast { amount }, stage);
    }
    if let Some(Operation::ToneCurve { curve }) = list::current(ops, Kind::ToneCurve) {
        lemma_only(!curve.has_no_effect(), Stage::ToneCurve { curve }, stage);
    }
}

/// The stages behind the tone curve.
proof fn lemma_third_part(ops: Seq<Operation>, stage: Stage)
    requires
        list::all_valid(ops),
    ensures
        plan::saturation_stage(ops).contains(stage) <==> (stage matches Stage::Saturation { amount }
            && counts(ops, Operation::Saturation { amount }, is_felt(amount))),
        plan::sharpness_stage(ops).contains(stage) <==> (stage matches Stage::Sharpness { amount }
            && counts(ops, Operation::Sharpness { amount }, is_felt(amount))),
        plan::vignette_stage(ops).contains(stage) <==> (stage matches Stage::Vignette { strength }
            && counts(ops, Operation::Vignette { strength }, is_felt(strength))),
        plan::frame_stage(ops).contains(stage) <==> (stage matches Stage::Frame { width_pct, color }
            && counts(ops, Operation::Frame { width_pct, color }, is_felt(width_pct))),
{
    lemma_current(ops, Kind::Saturation);
    lemma_current(ops, Kind::Sharpness);
    lemma_current(ops, Kind::Vignette);
    lemma_current(ops, Kind::Frame);
    lemma_zero_times();
    if let Some(Operation::Saturation { amount }) = list::current(ops, Kind::Saturation) {
        lemma_felt(amount);
        lemma_only(plan::noticeable(amount), Stage::Saturation { amount }, stage);
    }
    if let Some(Operation::Sharpness { amount }) = list::current(ops, Kind::Sharpness) {
        parameter_laws::parameters_have_ranges(Operation::Sharpness { amount });
        lemma_felt(amount);
        lemma_only(plan::substantial(amount), Stage::Sharpness { amount }, stage);
    }
    if let Some(Operation::Vignette { strength }) = list::current(ops, Kind::Vignette) {
        parameter_laws::parameters_have_ranges(Operation::Vignette { strength });
        lemma_felt(strength);
        lemma_only(plan::substantial(strength), Stage::Vignette { strength }, stage);
    }
    if let Some(Operation::Frame { width_pct, color }) = list::current(ops, Kind::Frame) {
        parameter_laws::parameters_have_ranges(Operation::Frame { width_pct, color });
        lemma_felt(width_pct);
        lemma_only(plan::substantial(width_pct), Stage::Frame { width_pct, color }, stage);
    }
}

} // verus!
