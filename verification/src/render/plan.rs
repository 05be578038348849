//! The stages of rendering, in the order in which they are applied.

use vstd::prelude::*;

use crate::document::curve::ToneCurve;
use crate::document::list;
use crate::document::operation::{Kind, Operation};
use crate::document::values::{CropRect, FrameColor, ShadowsHighlights, WhiteBalance};
use crate::number::constants;
use crate::number::scalar::Scalar;

verus! {

/// One stage of rendering.
#[allow(inconsistent_fields)]
#[derive(Clone, Copy, Debug, PartialEq)]
pub enum Stage {
    Rotate { quarter_turns: u8 },
    Straighten { degrees: Scalar },
    Crop { rect: CropRect },
    Denoise { luma: Scalar, color: Scalar },
    WhiteBalance { adjustment: WhiteBalance },
    Exposure { ev: Scalar },
    ShadowsHighlights { adjustment: ShadowsHighlights },
    Contrast { amount: Scalar },
    ToneCurve { curve: ToneCurve },
    Saturation { amount: Scalar },
    Sharpness { amount: Scalar },
    Vignette { strength: Scalar },
    Frame { width_pct: Scalar, color: FrameColor },
}

/// Whether an amount is more than the precision at one away from zero.
pub open spec fn noticeable(amount: Scalar) -> bool {
    (Scalar { bits: constants::EPSILON }).below(amount.size())
}

/// Whether an amount is more than the precision at one.
pub open spec fn substantial(amount: Scalar) -> bool {
    (Scalar { bits: constants::EPSILON }).below(amount)
}

/// A stage, or none.
pub open spec fn only_if(condition: bool, stage: Stage) -> Seq<Stage> {
    if condition {
        seq![stage]
    } else {
        Seq::empty()
    }
}

pub open spec fn rotate_stage(operations: Seq<Operation>) -> Seq<Stage> {
    let turns = match list::current(operations, Kind::Rotate) {
        Some(Operation::Rotate { quarter_turns }) => (quarter_turns % 4) as u8,
        _ => 0u8,
    };
    only_if(turns != 0, Stage::Rotate { quarter_turns: turns })
}

pub open spec fn straighten_stage(operations: Seq<Operation>) -> Seq<Stage> {
    match list::current(operations, Kind::Straighten) {
        Some(Operation::Straighten { degrees }) => only_if(
            noticeable(degrees),
            Stage::Straighten { degrees },
        ),
        _ => Seq::empty(),
    }
}

pub open spec fn crop_stage(operations: Seq<Operation>) -> Seq<Stage> {
    match list::current(operations, Kind::Crop) {
        Some(Operation::Crop { rect }) => only_if(!rect.covers_all(), Stage::Crop { rect }),
        _ => Seq::empty(),
    }
}

pub open spec fn denoise_stage(operations: Seq<Operation>) -> Seq<Stage> {
    match list::current(operations, Kind::Denoise) {
        Some(Operation::Denoise { luma_denoise, color_denoise }) => only_if(
            substantial(luma_denoise) || substantial(color_denoise),
            Stage::Denoise { luma: luma_denoise, color: color_denoise },
        ),
        _ => Seq::empty(),
    }
}

pub open spec fn white_balance_stage(operations: Seq<Operation>) -> Seq<Stage> {
    match list::current(operations, Kind::WhiteBalance) {
        Some(Operation::WhiteBalance { adjustment }) => only_if(
            !adjustment.has_no_effect(),
            Stage::WhiteBalance { adjustment },
        ),
        _ => Seq::empty(),
    }
}

pub open spec fn exposure_stage(operations: Seq<Operation>) -> Seq<Stage> {
    match list::current(operations, Kind::Exposure) {
        Some(Operation::Exposure { ev }) => only_if(noticeable(ev), Stage::Exposure { ev }),
        _ => Seq::empty(),
    }
}

pub open spec fn shadows_highlights_stage(operations: Seq<Operation>) -> Seq<Stage> {
    match list::current(operations, Kind::ShadowsHighlights) {
        Some(Operation::ShadowsHighlights { adjustment }) => only_if(
            !adjustment.has_no_effect(),
            Stage::ShadowsHighlights { adjustment },
        ),
        _ => Seq::empty(),
    }
}

pub open spec fn contrast_stage(operations: Seq<Operation>) -> Seq<Stage> {
    match list::current(operations, Kind::Contrast) {
        Some(Operation::Contrast { amount }) => only_if(
            noticeable(amount),
            Stage::Contrast { amount },
        ),
        _ => Seq::empty(),
    }
}

pub open spec fn tone_curve_stage(operations: Seq<Operation>) -> Seq<Stage> {
    match list::current(operations, Kind::ToneCurve) {
        Some(Operation::ToneCurve { curve }) => only_if(
            !curve.has_no_effect(),
            Stage::ToneCurve { curve },
        ),
        _ => Seq::empty(),
    }
}

pub open spec fn saturation_stage(operations: Seq<Operation>) -> Seq<Stage> {
    match list::current(operations, Kind::Saturation) {
        Some(Operation::Saturation { amount }) => only_if(
            noticeable(amount),
            Stage::Saturation { amount },
        ),
        _ => Seq::empty(),
    }
}

pub open spec fn sharpness_stage(operations: Seq<Operation>) -> Seq<Stage> {
    match list::current(operations, Kind::Sharpness) {
        Some(Operation::Sharpness { amount }) => only_if(
            substantial(amount),
            Stage::Sharpness { amount },
        ),
        _ => Seq::empty(),
    }
}

pub open spec fn vignette_stage(operations: Seq<Operation>) -> Seq<Stage> {
    match list::current(operations, Kind::Vignette) {
        Some(Operation::Vignette { strength }) => only_if(
            substantial(strength),
            Stage::Vignette { strength },
        ),
        _ => Seq::empty(),
    }
}

/// The stages on perceptual lightness and chroma: the vignette darkens what
/// has been sharpened.
pub open spec fn perceptual_stages(operations: Seq<Operation>) -> Seq<Stage> {
    saturation_stage(operations) + sharpness_stage(operations) + vignette_stage(operations)
}

pub open spec fn frame_stage(operations: Seq<Operation>) -> Seq<Stage> {
    match list::current(operations, Kind::Frame) {
        Some(Operation::Frame { width_pct, color }) => only_if(
            substantial(width_pct),
            Stage::Frame { width_pct, color },
        ),
        _ => Seq::empty(),
    }
}

/// The stages up to denoising.
pub open spec fn through_denoise(operations: Seq<Operation>) -> Seq<Stage> {
    rotate_stage(operations) + straighten_stage(operations) + crop_stage(operations)
        + denoise_stage(operations)
}

/// The stages between denoising and contrast.
pub open spec fn light_stages(operations: Seq<Operation>) -> Seq<Stage> {
    white_balance_stage(operations) + exposure_stage(operations) + shadows_highlights_stage(
        operations,
    )
}

/// The stages behind shadows and highlights.
pub open spec fn after_shadows_highlights(operations: Seq<Operation>) -> Seq<Stage> {
    contrast_stage(operations) + tone_curve_stage(operations) + perceptual_stages(operations)
        + frame_stage(operations)
}

/// All stages of a render.
pub open spec fn all_stages(operations: Seq<Operation>) -> Seq<Stage> {
    through_denoise(operations) + light_stages(operations) + after_shadows_highlights(operations)
}

fn is_noticeable(amount: Scalar) -> (result: bool)
    ensures
        result == noticeable(amount),
{
    Scalar { bits: constants::EPSILON }.less(amount.abs())
}

fn is_substantial(amount: Scalar) -> (result: bool)
    ensures
        result == substantial(amount),
{
    Scalar { bits: constants::EPSILON }.less(amount)
}

/// The operation of a kind that counts.
fn current(operations: &Vec<Operation>, kind: Kind) -> (operation: Option<Operation>)
    ensures
        operation == list::current(operations@, kind),
{
    match list::find_last(operations, kind) {
        Some(i) => Some(operations[i]),
        None => None,
    }
}

fn push_if(condition: bool, stage: Stage, stages: &mut Vec<Stage>)
    ensures
        final(stages)@ == old(stages)@ + only_if(condition, stage),
{
    if condition {
        stages.push(stage);
        assert(stages@ =~= old(stages)@ + seq![stage]);
    } else {
        assert(stages@ =~= old(stages)@ + Seq::empty());
    }
}

/// Adds the stages up to denoising.
fn push_through_denoise(operations: &Vec<Operation>, stages: &mut Vec<Stage>)
    ensures
        final(stages)@ == old(stages)@ + through_denoise(operations@),
{
    let ghost ops = operations@;
    let ghost start = stages@;
    let turns: u8 = match current(operations, Kind::Rotate) {
        Some(Operation::Rotate { quarter_turns }) => quarter_turns % 4,
        _ => 0,
    };
    push_if(turns != 0, Stage::Rotate { quarter_turns: turns }, stages);
    if let Some(Operation::Straighten { degrees }) = current(operations, Kind::Straighten) {
        push_if(is_noticeable(degrees), Stage::Straighten { degrees }, stages);
    }
    assert(stages@ =~= start + rotate_stage(ops) + straighten_stage(ops));
    if let Some(Operation::Crop { rect }) = current(operations, Kind::Crop) {
        push_if(!rect.is_full(), Stage::Crop { rect }, stages);
    }
    assert(stages@ =~= start + rotate_stage(ops) + straighten_stage(ops) + crop_stage(ops));
    if let Some(Operation::Denoise { luma_denoise, color_denoise }) = current(
        operations,
        Kind::Denoise,
    ) {
        push_if(
            is_substantial(luma_denoise) || is_substantial(color_denoise),
            Stage::Denoise { luma: luma_denoise, color: color_denoise },
            stages,
        );
    }
    assert(stages@ =~= start + through_denoise(ops));
}

/// Adds the stages between denoising and contrast.
fn push_light(operations: &Vec<Operation>, stages: &mut Vec<Stage>)
    ensures
        final(stages)@ == old(stages)@ + light_stages(operations@),
{
    let ghost ops = operations@;
    let ghost start = stages@;
    if let Some(Operation::WhiteBalance { adjustment }) = current(operations, Kind::WhiteBalance) {
        push_if(!adjustment.is_identity(), Stage::WhiteBalance { adjustment }, stages);
    }
    assert(stages@ =~= start + white_balance_stage(ops));
    if let Some(Operation::Exposure { ev }) = current(operations, Kind::Exposure) {
        push_if(is_noticeable(ev), Stage::Exposure { ev }, stages);
    }
    assert(stages@ =~= start + white_balance_stage(ops) + exposure_stage(ops));
    if let Some(Operation::ShadowsHighlights { adjustment }) = current(
        operations,
        Kind::ShadowsHighlights,
    ) {
        push_if(!adjustment.is_identity(), Stage::ShadowsHighlights { adjustment }, stages);
    }
    assert(stages@ =~= start + light_stages(ops));
}

/// Adds the stages on perceptual lightness and chroma.
fn push_perceptual(operations: &Vec<Operation>, stages: &mut Vec<Stage>)
    ensures
        final(stages)@ == old(stages)@ + perceptual_stages(operations@),
{
    let ghost ops = operations@;
    let ghost start = stages@;
    if let Some(Operation::Saturation { amount }) = current(operations, Kind::Saturation) {
        push_if(is_noticeable(amount), Stage::Saturation { amount }, stages);
    }
    assert(stages@ =~= start + saturation_stage(ops));
    if let Some(Operation::Sharpness { amount }) = current(operations, Kind::Sharpness) {
        push_if(is_substantial(amount), Stage::Sharpness { amount }, stages);
    }
    assert(stages@ =~= start + saturation_stage(ops) + sharpness_stage(ops));
    if let Some(Operation::Vignette { strength }) = current(operations, Kind::Vignette) {
        push_if(is_substantial(strength), Stage::Vignette { strength }, stages);
    }
    assert(stages@ =~= start + perceptual_stages(ops));
}

/// Adds the stages behind shadows and highlights.
fn push_after_shadows_highlights(operations: &Vec<Operation>, stages: &mut Vec<Stage>)
    ensures
        final(stages)@ == old(stages)@ + after_shadows_highlights(operations@),
{
    let ghost ops = operations@;
    let ghost start = stages@;
    if let Some(Operation::Contrast { amount }) = current(operations, Kind::Contrast) {
        push_if(is_noticeable(amount), Stage::Contrast { amount }, stages);
    }
    assert(stages@ =~= start + contrast_stage(ops));
    if let Some(Operation::ToneCurve { curve }) = current(operations, Kind::ToneCurve) {
        push_if(!curve.is_identity(), Stage::ToneCurve { curve }, stages);
    }
    assert(stages@ =~= start + contrast_stage(ops) + tone_curve_stage(ops));
    push_perceptual(operations, stages);
    assert(stages@ =~= start + contrast_stage(ops) + tone_curve_stage(ops) + perceptual_stages(
        ops,
    ));
    if let Some(Operation::Frame { width_pct, color }) = current(operations, Kind::Frame) {
        push_if(is_substantial(width_pct), Stage::Frame { width_pct, color }, stages);
    }
    assert(stages@ =~= start + after_shadows_highlights(ops));
}

/// Plans all stages of a render.
pub fn apply_operations(operations: &Vec<Operation>) -> (stages: Vec<Stage>)
    ensures
        stages@ == all_stages(operations@),
{
    let mut stages: Vec<Stage> = Vec::new();
    push_through_denoise(operations, &mut stages);
    push_light(operations, &mut stages);
    push_after_shadows_highlights(operations, &mut stages);
    assert(stages@ =~= all_stages(operations@));
    stages
}

/// Up to where the pixels of a fitted preview are kept for the next one.
#[derive(Clone, Copy, Debug, PartialEq, Eq, Structural)]
pub enum Cut {
    Nowhere,
    AfterDenoise,
    AfterShadowsHighlights,
}

/// The costly stage that decides: shadows and highlights where they are in
/// effect, else denoising.
pub open spec fn cut_of(operations: Seq<Operation>) -> Cut {
    if shadows_highlights_stage(operations).len() > 0 {
        Cut::AfterShadowsHighlights
    } else if denoise_stage(operations).len() > 0 {
        Cut::AfterDenoise
    } else {
        Cut::Nowhere
    }
}

/// The stages before a cut.
pub open spec fn stages_before(operations: Seq<Operation>, cut: Cut) -> Seq<Stage> {
    match cut {
        Cut::Nowhere => Seq::empty(),
        Cut::AfterDenoise => through_denoise(operations),
        Cut::AfterShadowsHighlights => through_denoise(operations) + light_stages(operations),
    }
}

/// The stages behind a cut.
pub open spec fn stages_behind(operations: Seq<Operation>, cut: Cut) -> Seq<Stage> {
    match cut {
        Cut::Nowhere => all_stages(operations),
        Cut::AfterDenoise => light_stages(operations) + after_shadows_highlights(operations),
        Cut::AfterShadowsHighlights => after_shadows_highlights(operations),
    }
}

/// Whether a kind of operation takes effect before a cut.
pub open spec fn is_before(kind: Kind, cut: Cut) -> bool {
    match kind {
        Kind::Rotate | Kind::Straighten | Kind::Crop | Kind::Denoise => cut != Cut::Nowhere,
        Kind::WhiteBalance | Kind::Exposure | Kind::ShadowsHighlights => cut
            == Cut::AfterShadowsHighlights,
        _ => false,
    }
}

/// The operations that take effect before a cut.
pub open spec fn operations_before(operations: Seq<Operation>, cut: Cut) -> Seq<Operation>
    decreases operations.len(),
{
    if operations.len() == 0 {
        Seq::empty()
    } else {
        let rest = operations_before(operations.drop_last(), cut);
        if is_before(operations.last().kind(), cut) {
            rest.push(operations.last())
        } else {
            rest
        }
    }
}

fn takes_effect_before(kind: Kind, cut: Cut) -> (result: bool)
    ensures
        result == is_before(kind, cut),
{
    match kind {
        Kind::Rotate | Kind::Straighten | Kind::Crop | Kind::Denoise => cut != Cut::Nowhere,
        Kind::WhiteBalance | Kind::Exposure | Kind::ShadowsHighlights => cut
            == Cut::AfterShadowsHighlights,
        _ => false,
    }
}

/// Finds the cut of a fitted preview.
pub fn find_cut(operations: &Vec<Operation>) -> (cut: Cut)
    ensures
        cut == cut_of(operations@),
{
    if let Some(Operation::ShadowsHighlights { adjustment }) = current(
        operations,
        Kind::ShadowsHighlights,
    ) {
        if !adjustment.is_identity() {
            return Cut::AfterShadowsHighlights;
        }
    }
    if let Some(Operation::Denoise { luma_denoise, color_denoise }) = current(
        operations,
        Kind::Denoise,
    ) {
        if is_substantial(luma_denoise) || is_substantial(color_denoise) {
            return Cut::AfterDenoise;
        }
    }
    Cut::Nowhere
}

/// Picks the operations that take effect before a cut.
pub fn pick_operations_before(operations: &Vec<Operation>, cut: Cut) -> (picked: Vec<Operation>)
    ensures
        picked@ == operations_before(operations@, cut),
{
    let mut picked: Vec<Operation> = Vec::new();
    let mut i: usize = 0;
    while i < operations.len()
        invariant
            i <= operations.len(),
            picked@ == operations_before(operations@.take(i as int), cut),
        decreases operations.len() - i,
    {
        if takes_effect_before(operations[i].which(), cut) {
            picked.push(operations[i]);
        }
        i = i + 1;
        assert(operations@.take(i as int).drop_last() =~= operations@.take(i - 1));
    }
    assert(operations@.take(operations.len() as int) =~= operations@);
    picked
}

/// Plans the stages before a cut.
pub fn plan_before(operations: &Vec<Operation>, cut: Cut) -> (stages: Vec<Stage>)
    ensures
        stages@ == stages_before(operations@, cut),
{
    let mut stages: Vec<Stage> = Vec::new();
    if let Cut::Nowhere = cut {
        return stages;
    }
    push_through_denoise(operations, &mut stages);
    if let Cut::AfterShadowsHighlights = cut {
        push_light(operations, &mut stages);
    }
    assert(stages@ =~= stages_before(operations@, cut));
    stages
}

/// Plans the stages behind a cut.
pub fn plan_behind(operations: &Vec<Operation>, cut: Cut) -> (stages: Vec<Stage>)
    ensures
        stages@ == stages_behind(operations@, cut),
{
    let mut stages: Vec<Stage> = Vec::new();
    match cut {
        Cut::Nowhere => {
            push_through_denoise(operations, &mut stages);
            push_light(operations, &mut stages);
        },
        Cut::AfterDenoise => {
            push_light(operations, &mut stages);
        },
        Cut::AfterShadowsHighlights => {},
    }
    push_after_shadows_highlights(operations, &mut stages);
    assert(stages@ =~= stages_behind(operations@, cut));
    stages
}

/// The operations without the frame, which is drawn for itself.
pub open spec fn without_frame(operations: Seq<Operation>) -> Seq<Operation>
    decreases operations.len(),
{
    if operations.len() == 0 {
        Seq::empty()
    } else {
        let rest = without_frame(operations.drop_last());
        if operations.last() is Frame {
            rest
        } else {
            rest.push(operations.last())
        }
    }
}

/// Takes the frame out of a list of operations.
pub fn remove_frame(operations: &Vec<Operation>) -> (rest: Vec<Operation>)
    ensures
        rest@ == without_frame(operations@),
{
    let mut rest: Vec<Operation> = Vec::new();
    let mut i: usize = 0;
    while i < operations.len()
        invariant
            i <= operations.len(),
            rest@ == without_frame(operations@.take(i as int)),
        decreases operations.len() - i,
    {
        match operations[i] {
            Operation::Frame { .. } => {},
            other => {
                rest.push(other);
            },
        }
        i = i + 1;
        assert(operations@.take(i as int).drop_last() =~= operations@.take(i - 1));
    }
    assert(operations@.take(operations.len() as int) =~= operations@);
    rest
}

/// Plans the frame alone.
pub fn plan_frame(operations: &Vec<Operation>) -> (stages: Vec<Stage>)
    ensures
        stages@ == frame_stage(operations@),
{
    let mut stages: Vec<Stage> = Vec::new();
    if let Some(Operation::Frame { width_pct, color }) = current(operations, Kind::Frame) {
        push_if(is_substantial(width_pct), Stage::Frame { width_pct, color }, &mut stages);
    }
    assert(stages@ =~= frame_stage(operations@));
    stages
}

/// The operation that counts of a kind before a cut is among the operations
/// that are picked.
proof fn lemma_picked_current(operations: Seq<Operation>, cut: Cut, kind: Kind)
    requires
        is_before(kind, cut),
    ensures
        list::current(operations_before(operations, cut), kind) == list::current(operations, kind),
    decreases operations.len(),
{
    if operations.len() > 0 {
        let shorter = operations.drop_last();
        let picked = operations_before(shorter, cut);
        lemma_picked_current(shorter, cut, kind);
        list::lemma_last_of(shorter, kind);
        list::lemma_last_of(picked, kind);
        let last = operations.last();
        if is_before(last.kind(), cut) {
            assert(picked.push(last).drop_last() =~= picked);
            if last.kind() == kind {
                assert(operations_before(operations, cut).last() == last);
            } else {
                let k = list::last_of(picked, kind);
                if k >= 0 {
                    assert(picked.push(last)[k] == picked[k]);
                }
            }
        }
        if last.kind() != kind && list::last_of(shorter, kind) >= 0 {
            assert(operations[list::last_of(shorter, kind)] == shorter[list::last_of(
                shorter,
                kind,
            )]);
        }
    }
}

/// Lists that agree on the picked operations agree on what counts.
proof fn lemma_agree(first: Seq<Operation>, second: Seq<Operation>, cut: Cut, kind: Kind)
    requires
        is_before(kind, cut),
        operations_before(first, cut) == operations_before(second, cut),
    ensures
        list::current(first, kind) == list::current(second, kind),
{
    lemma_picked_current(first, cut, kind);
    lemma_picked_current(second, cut, kind);
}

/// The pixels before a cut depend on the picked operations alone: two lists
/// that agree on these are rendered alike up to the cut, whatever else they
/// hold.
pub proof fn picked_operations_decide_the_stages(
    first: Seq<Operation>,
    second: Seq<Operation>,
    cut: Cut,
)
    requires
        operations_before(first, cut) == operations_before(second, cut),
    ensures
        stages_before(first, cut) == stages_before(second, cut),
{
    if cut != Cut::Nowhere {
        assert(rotate_stage(first) == rotate_stage(second)) by {
            lemma_agree(first, second, cut, Kind::Rotate);
        }
        assert(straighten_stage(first) == straighten_stage(second)) by {
            lemma_agree(first, second, cut, Kind::Straighten);
        }
        assert(crop_stage(first) == crop_stage(second)) by {
            lemma_agree(first, second, cut, Kind::Crop);
        }
        assert(denoise_stage(first) == denoise_stage(second)) by {
            lemma_agree(first, second, cut, Kind::Denoise);
        }
    }
    if cut == Cut::AfterShadowsHighlights {
        assert(white_balance_stage(first) == white_balance_stage(second)) by {
            lemma_agree(first, second, cut, Kind::WhiteBalance);
        }
        assert(exposure_stage(first) == exposure_stage(second)) by {
            lemma_agree(first, second, cut, Kind::Exposure);
        }
        assert(shadows_highlights_stage(first) == shadows_highlights_stage(second)) by {
            lemma_agree(first, second, cut, Kind::ShadowsHighlights);
        }
    }
}

/// Setting an operation that takes effect behind a cut leaves the picked
/// operations as they are, so that kept pixels stay in use.
pub proof fn later_edits_keep_the_picked_operations(
    operations: Seq<Operation>,
    operation: Operation,
    cut: Cut,
)
    requires
        !is_before(operation.kind(), cut),
    ensures
        operations_before(list::with(operations, operation), cut) == operations_before(
            operations,
            cut,
        ),
{
    let i = list::last_of(operations, operation.kind());
    list::lemma_last_of(operations, operation.kind());
    if i >= 0 {
        lemma_update_is_not_picked(operations, i, operation, cut);
    } else if operation is Straighten {
        list::lemma_first_of(operations, Kind::Rotate);
        lemma_insert_is_not_picked(
            operations,
            list::first_of(operations, Kind::Rotate) + 1,
            operation,
            cut,
        );
    } else {
        assert(operations.push(operation).drop_last() =~= operations);
    }
}

proof fn lemma_update_is_not_picked(
    operations: Seq<Operation>,
    place: int,
    operation: Operation,
    cut: Cut,
)
    requires
        0 <= place < operations.len(),
        operations[place].kind() == operation.kind(),
        !is_before(operation.kind(), cut),
    ensures
        operations_before(operations.update(place, operation), cut) == operations_before(
            operations,
            cut,
        ),
    decreases operations.len(),
{
    let after = operations.update(place, operation);
    if place < operations.len() - 1 {
        lemma_update_is_not_picked(operations.drop_last(), place, operation, cut);
        assert(after.drop_last() =~= operations.drop_last().update(place, operation));
    } else {
        assert(after.drop_last() =~= operations.drop_last());
    }
}

proof fn lemma_insert_is_not_picked(
    operations: Seq<Operation>,
    place: int,
    operation: Operation,
    cut: Cut,
)
    requires
        0 <= place <= operations.len(),
        !is_before(operation.kind(), cut),
    ensures
        operations_before(operations.insert(place, operation), cut) == operations_before(
            operations,
            cut,
        ),
    decreases operations.len(),
{
    let after = operations.insert(place, operation);
    if place < operations.len() {
        lemma_insert_is_not_picked(operations.drop_last(), place, operation, cut);
        assert(after.drop_last() =~= operations.drop_last().insert(place, operation));
        assert(after.last() == operations.last());
    } else {
        assert(after.drop_last() =~= operations);
    }
}

/// What is kept and what comes behind it make up the whole render.
pub proof fn a_cut_divides_the_render(operations: Seq<Operation>, cut: Cut)
    ensures
        stages_before(operations, cut) + stages_behind(operations, cut) == all_stages(operations),
{
    assert(stages_before(operations, cut) + stages_behind(operations, cut) =~= all_stages(
        operations,
    ));
}

/// How far back in a render a stage comes.
pub open spec fn place_of(stage: Stage) -> int {
    match stage {
        Stage::Rotate { .. } => 0,
        Stage::Straighten { .. } => 1,
        Stage::Crop { .. } => 2,
        Stage::Denoise { .. } => 3,
        Stage::WhiteBalance { .. } => 4,
        Stage::Exposure { .. } => 5,
        Stage::ShadowsHighlights { .. } => 6,
        Stage::Contrast { .. } => 7,
        Stage::ToneCurve { .. } => 8,
        Stage::Saturation { .. } => 9,
        Stage::Sharpness { .. } => 10,
        Stage::Vignette { .. } => 11,
        Stage::Frame { .. } => 12,
    }
}

/// Whether stages come one behind the other, all before a place.
#[verifier::opaque]
spec fn in_order(stages: Seq<Stage>, end: int) -> bool {
    &&& forall|i: int| 0 <= i < stages.len() ==> place_of(#[trigger] stages[i]) < end
    &&& forall|i: int, j: int|
        0 <= i < j < stages.len() ==> place_of(#[trigger] stages[i]) < place_of(
            #[trigger] stages[j],
        )
}

proof fn lemma_next_stage(stages: Seq<Stage>, next: Seq<Stage>, place: int)
    requires
        in_order(stages, place),
        next.len() <= 1,
        next.len() == 1 ==> place_of(next[0]) == place,
    ensures
        in_order(stages + next, place + 1),
{
    reveal(in_order);
}

/// A list behind two others in a row.
proof fn lemma_in_a_row(a: Seq<Stage>, b: Seq<Stage>, c: Seq<Stage>)
    ensures
        a + (b + c) == (a + b) + c,
{
    assert(a + (b + c) =~= (a + b) + c);
}

/// Whatever the order of the operations, a render goes through its stages in
/// one order, and through none of them twice.
pub proof fn stages_keep_their_order(operations: Seq<Operation>, earlier: int, later: int)
    requires
        0 <= earlier < later < all_stages(operations).len(),
    ensures
        place_of(all_stages(operations)[earlier]) < place_of(all_stages(operations)[later]),
{
    let ops = operations;
    let s0 = rotate_stage(ops);
    let s1 = s0 + straighten_stage(ops);
    let s2 = s1 + crop_stage(ops);
    let s3 = s2 + denoise_stage(ops);
    let s4 = s3 + white_balance_stage(ops);
    let s5 = s4 + exposure_stage(ops);
    let s6 = s5 + shadows_highlights_stage(ops);
    let s7 = s6 + contrast_stage(ops);
    let s8 = s7 + tone_curve_stage(ops);
    let s9 = s8 + saturation_stage(ops);
    let s10 = s9 + sharpness_stage(ops);
    let s11 = s10 + vignette_stage(ops);
    let s12 = s11 + frame_stage(ops);
    assert(in_order(s0, 1)) by {
        reveal(in_order);
    }
    lemma_next_stage(s0, straighten_stage(ops), 1);
    lemma_next_stage(s1, crop_stage(ops), 2);
    lemma_next_stage(s2, denoise_stage(ops), 3);
    lemma_next_stage(s3, white_balance_stage(ops), 4);
    lemma_next_stage(s4, exposure_stage(ops), 5);
    lemma_next_stage(s5, shadows_highlights_stage(ops), 6);
    lemma_next_stage(s6, contrast_stage(ops), 7);
    lemma_next_stage(s7, tone_curve_stage(ops), 8);
    lemma_next_stage(s8, saturation_stage(ops), 9);
    lemma_next_stage(s9, sharpness_stage(ops), 10);
    lemma_next_stage(s10, vignette_stage(ops), 11);
    lemma_next_stage(s11, frame_stage(ops), 12);
    assert(all_stages(ops) == s12) by {
        let light = white_balance_stage(ops) + exposure_stage(ops);
        lemma_in_a_row(s3, light, shadows_highlights_stage(ops));
        lemma_in_a_row(s3, white_balance_stage(ops), exposure_stage(ops));
        let tones = contrast_stage(ops) + tone_curve_stage(ops);
        let colors = saturation_stage(ops) + sharpness_stage(ops);
        lemma_in_a_row(s6, tones + perceptual_stages(ops), frame_stage(ops));
        lemma_in_a_row(s6, tones, perceptual_stages(ops));
        lemma_in_a_row(s6, contrast_stage(ops), tone_curve_stage(ops));
        lemma_in_a_row(s8, colors, vignette_stage(ops));
        lemma_in_a_row(s8, saturation_stage(ops), sharpness_stage(ops));
    }
    reveal(in_order);
}

} // verus!
