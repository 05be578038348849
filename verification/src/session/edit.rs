//! Changes of the operations: shown while they are tried, and made for good
//! as one command each.

use vstd::prelude::*;

use crate::document::operation::{DocumentError, Kind, Operation};
use crate::document::project;
use crate::document::project::ProjectDocument;
use crate::document::turn_laws;
use crate::document::values::{
    CropRect, FrameColor, ShadowsHighlights, ViewState, WhiteBalance,
};
use crate::number::constants;
use crate::number::laws;
use crate::number::scalar::Scalar;
use crate::render::contracts::PreviewRequest;
use crate::session::drag_laws;
use crate::session::slider_laws;
use crate::session::state;
use crate::session::state::{EditStarts, RequestView, Session, SessionView};

verus! {

/// A number that the user sets.
#[derive(Clone, Copy, Debug, PartialEq, Eq, Structural)]
pub enum Slider {
    Exposure,
    Contrast,
    Shadows,
    Highlights,
    Temperature,
    Tint,
    Saturation,
    Sharpness,
    Vignette,
    LumaDenoise,
    ColorDenoise,
    Rotation,
    Frame,
}

impl Slider {
    /// The kind of operation that it changes.
    pub open spec fn kind(self) -> Kind {
        match self {
            Slider::Exposure => Kind::Exposure,
            Slider::Contrast => Kind::Contrast,
            Slider::Shadows | Slider::Highlights => Kind::ShadowsHighlights,
            Slider::Temperature | Slider::Tint => Kind::WhiteBalance,
            Slider::Saturation => Kind::Saturation,
            Slider::Sharpness => Kind::Sharpness,
            Slider::Vignette => Kind::Vignette,
            Slider::LumaDenoise | Slider::ColorDenoise => Kind::Denoise,
            Slider::Rotation => Kind::Straighten,
            Slider::Frame => Kind::Frame,
        }
    }

    /// The least and the largest number that it takes.
    pub open spec fn range(self) -> (Scalar, Scalar) {
        match self {
            Slider::Exposure => (
                Scalar { bits: constants::MINUS_THREE },
                Scalar { bits: constants::THREE },
            ),
            Slider::Sharpness => (
                Scalar { bits: constants::ZERO },
                Scalar { bits: constants::THOUSAND },
            ),
            Slider::Vignette | Slider::LumaDenoise | Slider::ColorDenoise => (
                Scalar { bits: constants::ZERO },
                Scalar { bits: constants::HUNDRED },
            ),
            Slider::Rotation => (
                Scalar { bits: constants::MINUS_FORTY_FIVE },
                Scalar { bits: constants::FORTY_FIVE },
            ),
            Slider::Frame => (
                Scalar { bits: constants::ZERO },
                Scalar { bits: constants::FIFTY },
            ),
            _ => (
                Scalar { bits: constants::MINUS_HUNDRED },
                Scalar { bits: constants::HUNDRED },
            ),
        }
    }

    /// A number brought into range.
    pub open spec fn limited(self, value: Scalar) -> Scalar {
        value.clamped(self.range().0, self.range().1)
    }

    /// An operation with the number that is set in it.
    pub open spec fn applied(self, base: Operation, value: Scalar) -> Operation {
        match (self, base) {
            (Slider::Shadows, Operation::ShadowsHighlights { adjustment }) => {
                Operation::ShadowsHighlights {
                    adjustment: ShadowsHighlights { shadows: value, ..adjustment },
                }
            },
            (Slider::Highlights, Operation::ShadowsHighlights { adjustment }) => {
                Operation::ShadowsHighlights {
                    adjustment: ShadowsHighlights { highlights: value, ..adjustment },
                }
            },
            (Slider::Temperature, Operation::WhiteBalance { adjustment }) => {
                Operation::WhiteBalance {
                    adjustment: WhiteBalance { temperature: value, ..adjustment },
                }
            },
            (Slider::Tint, Operation::WhiteBalance { adjustment }) => {
                Operation::WhiteBalance { adjustment: WhiteBalance { tint: value, ..adjustment } }
            },
            (Slider::LumaDenoise, Operation::Denoise { color_denoise, .. }) => {
                Operation::Denoise { luma_denoise: value, color_denoise }
            },
            (Slider::ColorDenoise, Operation::Denoise { luma_denoise, .. }) => {
                Operation::Denoise { luma_denoise, color_denoise: value }
            },
            (Slider::Frame, Operation::Frame { color, .. }) => {
                Operation::Frame { width_pct: value, color }
            },
            (Slider::Exposure, _) => Operation::Exposure { ev: value },
            (Slider::Contrast, _) => Operation::Contrast { amount: value },
            (Slider::Saturation, _) => Operation::Saturation { amount: value },
            (Slider::Sharpness, _) => Operation::Sharpness { amount: value },
            (Slider::Vignette, _) => Operation::Vignette {
                strength: value.quotient(Scalar { bits: constants::HUNDRED }),
            },
            (Slider::Rotation, _) => Operation::Straighten { degrees: value },
            (_, other) => other,
        }
    }

    /// The operation that resetting the number leaves.
    pub open spec fn cleared(self, base: Operation) -> Operation {
        if self == Slider::Frame {
            Operation::Frame {
                width_pct: Scalar { bits: constants::ZERO },
                color: FrameColor::plain_white(),
            }
        } else if self == Slider::Vignette {
            Operation::Vignette { strength: Scalar { bits: constants::ZERO } }
        } else {
            self.applied(base, Scalar { bits: constants::ZERO })
        }
    }

    /// The kind of operation that it changes.
    pub fn which(self) -> (kind: Kind)
        ensures
            kind == self.kind(),
    {
        match self {
            Slider::Exposure => Kind::Exposure,
            Slider::Contrast => Kind::Contrast,
            Slider::Shadows | Slider::Highlights => Kind::ShadowsHighlights,
            Slider::Temperature | Slider::Tint => Kind::WhiteBalance,
            Slider::Saturation => Kind::Saturation,
            Slider::Sharpness => Kind::Sharpness,
            Slider::Vignette => Kind::Vignette,
            Slider::LumaDenoise | Slider::ColorDenoise => Kind::Denoise,
            Slider::Rotation => Kind::Straighten,
            Slider::Frame => Kind::Frame,
        }
    }

    /// The least and the largest number that it takes.
    pub fn limits(self) -> (limits: (Scalar, Scalar))
        ensures
            limits == self.range(),
            limits.0.at_most(limits.1),
    {
        match self {
            Slider::Exposure => (
                Scalar { bits: constants::MINUS_THREE },
                Scalar { bits: constants::THREE },
            ),
            Slider::Sharpness => (
                Scalar { bits: constants::ZERO },
                Scalar { bits: constants::THOUSAND },
            ),
            Slider::Vignette | Slider::LumaDenoise | Slider::ColorDenoise => (
                Scalar { bits: constants::ZERO },
                Scalar { bits: constants::HUNDRED },
            ),
            Slider::Rotation => (
                Scalar { bits: constants::MINUS_FORTY_FIVE },
                Scalar { bits: constants::FORTY_FIVE },
            ),
            Slider::Frame => (
                Scalar { bits: constants::ZERO },
                Scalar { bits: constants::FIFTY },
            ),
            _ => (
                Scalar { bits: constants::MINUS_HUNDRED },
                Scalar { bits: constants::HUNDRED },
            ),
        }
    }

    /// A number brought into range.
    pub fn limit(self, value: Scalar) -> (result: Scalar)
        ensures
            result == self.limited(value),
            value.finite() ==> laws::exact(result) == drag_laws::held(
                laws::exact(value),
                slider_laws::bounds_of(self).0 * turn_laws::whole(),
                slider_laws::bounds_of(self).1 * turn_laws::whole(),
            ),
    {
        proof {
            if value.finite() {
                slider_laws::a_slider_keeps_its_range(self, value);
            }
        }
        let (low, high) = self.limits();
        value.clamp(low, high)
    }

    /// An operation with the number that is set in it.
    pub fn apply(self, base: Operation, value: Scalar) -> (operation: Operation)
        requires
            base.kind() == self.kind(),
        ensures
            operation == self.applied(base, value),
            operation.kind() == self.kind(),
            slider_laws::has_number_set(self, base, value, operation),
    {
        proof {
            slider_laws::a_slider_sets_its_number(self, base, value);
        }
        match (self, base) {
            (Slider::Shadows, Operation::ShadowsHighlights { adjustment }) => {
                Operation::ShadowsHighlights {
                    adjustment: ShadowsHighlights {
                        shadows: value,
                        highlights: adjustment.highlights,
                    },
                }
            },
            (Slider::Highlights, Operation::ShadowsHighlights { adjustment }) => {
                Operation::ShadowsHighlights {
                    adjustment: ShadowsHighlights {
                        shadows: adjustment.shadows,
                        highlights: value,
                    },
                }
            },
            (Slider::Temperature, Operation::WhiteBalance { adjustment }) => {
                Operation::WhiteBalance {
                    adjustment: WhiteBalance { temperature: value, tint: adjustment.tint },
                }
            },
            (Slider::Tint, Operation::WhiteBalance { adjustment }) => {
                Operation::WhiteBalance {
                    adjustment: WhiteBalance { temperature: adjustment.temperature, tint: value },
                }
            },
            (Slider::LumaDenoise, Operation::Denoise { luma_denoise: _, color_denoise }) => {
                Operation::Denoise { luma_denoise: value, color_denoise }
            },
            (Slider::ColorDenoise, Operation::Denoise { luma_denoise, color_denoise: _ }) => {
                Operation::Denoise { luma_denoise, color_denoise: value }
            },
            (Slider::Frame, Operation::Frame { width_pct: _, color }) => {
                Operation::Frame { width_pct: value, color }
            },
            (Slider::Exposure, _) => Operation::Exposure { ev: value },
            (Slider::Contrast, _) => Operation::Contrast { amount: value },
            (Slider::Saturation, _) => Operation::Saturation { amount: value },
            (Slider::Sharpness, _) => Operation::Sharpness { amount: value },
            (Slider::Vignette, _) => Operation::Vignette {
                strength: value.over(Scalar { bits: constants::HUNDRED }),
            },
            (Slider::Rotation, _) => Operation::Straighten { degrees: value },
            (_, other) => other,
        }
    }

    /// The operation that resetting the number leaves.
    pub fn clear(self, base: Operation) -> (operation: Operation)
        requires
            base.kind() == self.kind(),
        ensures
            operation == self.cleared(base),
            operation.kind() == self.kind(),
    {
        if self == Slider::Frame {
            Operation::Frame {
                width_pct: Scalar { bits: constants::ZERO },
                color: FrameColor::white(),
            }
        } else if self == Slider::Vignette {
            Operation::Vignette { strength: Scalar { bits: constants::ZERO } }
        } else {
            self.apply(base, Scalar { bits: constants::ZERO })
        }
    }
}

/// What comes of a change: an error where it was refused, and else the
/// preview to ask for, if any.
pub type Answer = Result<Option<PreviewRequest>, DocumentError>;

/// The view of an answer.
pub open spec fn answered(answer: Answer) -> Result<Option<RequestView>, DocumentError> {
    match answer {
        Ok(request) => Ok(state::asked(request)),
        Err(error) => Err(error),
    }
}

impl SessionView {
    /// Whether an operation of a kind cannot be changed now. The exposure can
    /// also be changed while the crop is.
    pub open spec fn refuses(self, kind: Kind) -> bool {
        ||| self.document is None
        ||| self.curves()
        ||| self.crops() && kind != Kind::Exposure
    }

    /// What a change of a kind began at: where it has not begun, what is set.
    pub open spec fn start_of(self, kind: Kind) -> Operation {
        match self.starts.at(kind) {
            Some(operation) => operation,
            None => self.document->0.operation_of(kind),
        }
    }

    /// The session with a change of a kind begun.
    pub open spec fn begun(self, kind: Kind) -> SessionView {
        SessionView { starts: self.starts.with(self.start_of(kind)), ..self }
    }

    /// The session with a change of a kind ended.
    pub open spec fn ended(self, kind: Kind) -> SessionView {
        SessionView { starts: self.starts.without(kind), ..self }
    }

    /// The document with an operation set for a while. The straightened photo
    /// is shown whole.
    pub open spec fn tried(self, operation: Operation) -> SessionView {
        let document = self.document->0.set(operation);
        self.holding(
            if operation is Straighten {
                state::shown_whole(document)
            } else {
                document
            },
        )
    }

    /// The session after an operation has been set for a while, before the
    /// preview is asked for.
    pub open spec fn trying(self, operation: Operation, now: u64) -> SessionView {
        let tried = self.begun(operation.kind()).tried(operation);
        if operation is Straighten {
            tried
        } else {
            tried.changed(now)
        }
    }

    /// The session after an operation has been tried.
    pub open spec fn previewed(
        self,
        operation: Operation,
        now: u64,
        canvas: (u32, u32),
    ) -> SessionView {
        if self.refuses(operation.kind()) {
            self
        } else if !operation.valid() {
            self.begun(operation.kind())
        } else {
            self.trying(operation, now).queued(now, canvas)
        }
    }

    /// What comes of trying an operation.
    pub open spec fn preview_answer(
        self,
        operation: Operation,
        now: u64,
        canvas: (u32, u32),
    ) -> Result<Option<RequestView>, DocumentError> {
        if self.refuses(operation.kind()) {
            Ok(None)
        } else if !operation.valid() {
            Err(operation.error())
        } else {
            Ok(self.trying(operation, now).next_request(canvas))
        }
    }

    /// The session after a change has been made for good, before a preview is
    /// asked for.
    pub open spec fn making(self, before: Operation, after: Operation, now: u64) -> SessionView {
        let document = self.document->0.committed(
            before,
            after,
            project::notable(before, after),
        );
        self.holding(
            if after is Straighten {
                state::shown_whole(document)
            } else {
                document
            },
        ).changed(now)
    }

    /// The session after an operation has been set for good.
    pub open spec fn made(
        self,
        operation: Operation,
        now: u64,
        canvas: (u32, u32),
    ) -> SessionView {
        let kind = operation.kind();
        let before = self.start_of(kind);
        if self.refuses(kind) {
            self
        } else if project::change_outcome(before, operation) is Err {
            self.ended(kind)
        } else if operation is Straighten {
            self.ended(kind).making(before, operation, now).queued(now, canvas)
        } else {
            self.ended(kind).making(before, operation, now)
        }
    }

    /// What comes of setting an operation for good.
    pub open spec fn commit_answer(
        self,
        operation: Operation,
        now: u64,
        canvas: (u32, u32),
    ) -> Result<Option<RequestView>, DocumentError> {
        let kind = operation.kind();
        let before = self.start_of(kind);
        if self.refuses(kind) {
            Ok(None)
        } else if project::change_outcome(before, operation) is Err {
            Err(project::change_outcome(before, operation)->Err_0)
        } else if operation is Straighten {
            Ok(self.ended(kind).making(before, operation, now).next_request(canvas))
        } else {
            Ok(None)
        }
    }

    /// The operation that a number asks for while it is tried: the rest of
    /// the operation stays as it is.
    pub open spec fn asked_by(self, slider: Slider, value: Scalar) -> Operation {
        slider.applied(self.document->0.operation_of(slider.kind()), slider.limited(value))
    }

    /// The operation that a number asks for in the end. Of shadows and
    /// highlights, the rest is what it was when the change began.
    pub open spec fn asked_for_good_by(self, slider: Slider, value: Scalar) -> Operation {
        if slider.kind() == Kind::ShadowsHighlights {
            slider.applied(self.start_of(slider.kind()), slider.limited(value))
        } else {
            self.asked_by(slider, value)
        }
    }

    /// Whether a change made at once goes through.
    pub open spec fn changes_at_once(self, kind: Kind, after: Operation) -> bool {
        &&& !self.refuses(kind)
        &&& project::change_outcome(self.document->0.operation_of(kind), after) is Ok
    }

    /// The session after a number has been reset, before the preview is asked
    /// for.
    pub open spec fn resetting(self, slider: Slider, now: u64) -> SessionView {
        let before = self.document->0.operation_of(slider.kind());
        self.making(before, slider.cleared(before), now).ended(slider.kind())
    }

    /// Whether a number can be reset.
    pub open spec fn can_reset(self, slider: Slider) -> bool {
        self.changes_at_once(
            slider.kind(),
            slider.cleared(self.document->0.operation_of(slider.kind())),
        )
    }

    /// The document's straightening, or none without a document.
    pub open spec fn straightening(self) -> Scalar {
        match self.document {
            Some(document) => document.degrees(),
            None => Scalar { bits: constants::ZERO },
        }
    }

    /// Whether there is a straightening to take back.
    pub open spec fn is_straightened(self) -> bool {
        !self.straightening().size().at_most(Scalar { bits: constants::EPSILON })
    }

    /// The session with the change of the straightening begun at what is set.
    pub open spec fn rotation_begun(self) -> SessionView {
        SessionView {
            starts: EditStarts { rotation: Some(self.straightening()), ..self.starts },
            ..self
        }
    }

    /// A frame of another colour.
    pub open spec fn recolored(self, color: FrameColor) -> Operation {
        Operation::Frame { width_pct: self.document->0.border().0, color }
    }

    /// The session after the document has been put back to the untouched
    /// photo, before the preview is asked for.
    pub open spec fn restoring(self, now: u64) -> SessionView {
        SessionView {
            starts: EditStarts::nothing(),
            ..self.holding(state::shown_whole(self.document->0.restored())).changed(now)
        }
    }

    /// Whether there is anything to put back.
    pub open spec fn can_restore(self) -> bool {
        &&& !self.in_a_mode()
        &&& self.document matches Some(document)
        &&& document.is_touched()
    }

    /// Whether the photo can be turned by a number of quarter turns.
    pub open spec fn can_turn(self, delta: i32) -> bool {
        &&& !self.in_a_mode()
        &&& self.document is Some
        &&& i8::MIN <= delta <= i8::MAX
    }

    /// Whether the turned crop and the number of turns can be worked out.
    pub open spec fn turn_is_possible(self, delta: i32) -> bool {
        self.can_turn(delta) ==> {
            &&& self.document->0.turns() + delta as int % 4 <= u8::MAX
            &&& delta as int % 4 != 0 ==> self.document->0.crop().measurable()
        }
    }

    /// The crop that turning the photo leaves.
    pub open spec fn turned_crop(self, delta: i32) -> Operation {
        Operation::Crop { rect: project::turned(self.document->0.crop(), delta as int % 4) }
    }

    /// The session after the photo has been turned, before the preview is
    /// asked for.
    pub open spec fn turning(self, delta: i32, now: u64) -> SessionView {
        SessionView {
            starts: EditStarts { rotation: None, ..self.starts },
            ..self.holding(state::shown_whole(self.document->0.rotated(delta as int % 4))).changed(now)
        }
    }

    /// The session with no change begun.
    pub open spec fn settled(self) -> SessionView {
        SessionView { starts: EditStarts::nothing(), ..self }
    }

    /// The session after the newest command has been undone.
    pub open spec fn undone(self, now: u64, canvas: (u32, u32)) -> SessionView {
        if self.in_a_mode() || self.document is None {
            self
        } else if self.can_undo() {
            self.settled().holding(self.document->0.undone()).changed(now).queued(now, canvas)
        } else {
            self.settled()
        }
    }

    /// The session after the newest undone command has been made again.
    pub open spec fn redone(self, now: u64, canvas: (u32, u32)) -> SessionView {
        if self.in_a_mode() || self.document is None {
            self
        } else if self.can_redo() {
            self.settled().holding(self.document->0.redone()).changed(now).queued(now, canvas)
        } else {
            self.settled()
        }
    }
}

impl Session {
    /// Sets an operation for a while, and asks for a preview of it.
    pub fn preview_edit(&mut self, operation: Operation, now: u64, canvas: (u32, u32)) -> (answer:
        Answer)
        ensures
            final(self)@ == old(self)@.previewed(operation, now, canvas),
            answered(answer) == old(self)@.preview_answer(operation, now, canvas),
    {
        let kind: Kind = operation.which();
        if self.curve_edit_start.is_some() || (self.crop_edit_start.is_some() && kind
            != Kind::Exposure) {
            return Ok(None);
        }
        let mut document: ProjectDocument = match self.document.take() {
            Some(document) => document,
            None => return Ok(None),
        };
        let start: Operation = match self.starts.get(kind) {
            Some(operation) => operation,
            None => document.operation(kind),
        };
        self.starts.begin(start);
        let result: Result<(), DocumentError> = document.preview_operation(operation);
        if let Err(error) = result {
            self.document = Some(document);
            return Err(error);
        }
        if kind == Kind::Straighten {
            document.view = ViewState::default();
        } else {
            self.changed_at = Some(now);
        }
        self.document = Some(document);
        Ok(self.queue_preview(now, canvas))
    }

    /// Sets an operation for good. The change is one command, from what was
    /// set when it began.
    pub fn commit_edit(&mut self, operation: Operation, now: u64, canvas: (u32, u32)) -> (answer:
        Answer)
        requires
            !(operation is Rotate),
        ensures
            final(self)@ == old(self)@.made(operation, now, canvas),
            answered(answer) == old(self)@.commit_answer(operation, now, canvas),
    {
        let kind: Kind = operation.which();
        if self.curve_edit_start.is_some() || (self.crop_edit_start.is_some() && kind
            != Kind::Exposure) {
            return Ok(None);
        }
        let mut document: ProjectDocument = match self.document.take() {
            Some(document) => document,
            None => return Ok(None),
        };
        let before: Operation = match self.starts.get(kind) {
            Some(operation) => operation,
            None => document.operation(kind),
        };
        self.starts.end(kind);
        let result: Result<(), DocumentError> = document.commit_operation(before, operation);
        if let Err(error) = result {
            self.document = Some(document);
            return Err(error);
        }
        self.changed_at = Some(now);
        if kind == Kind::Straighten {
            document.view = ViewState::default();
            self.document = Some(document);
            Ok(self.queue_preview(now, canvas))
        } else {
            self.document = Some(document);
            Ok(None)
        }
    }

    /// Sets a number for a while.
    pub fn preview_slider(&mut self, slider: Slider, value: Scalar, now: u64, canvas: (u32, u32)) -> (
    answer: Answer)
        ensures
            final(self)@ == old(self)@.previewed(old(self)@.asked_by(slider, value), now, canvas),
            answered(answer) == old(self)@.preview_answer(
                old(self)@.asked_by(slider, value),
                now,
                canvas,
            ),
    {
        let limited: Scalar = slider.limit(value);
        let operation: Operation = match &self.document {
            Some(document) => slider.apply(document.operation(slider.which()), limited),
            None => return Ok(None),
        };
        self.preview_edit(operation, now, canvas)
    }

    /// Sets a number for good.
    pub fn commit_slider(&mut self, slider: Slider, value: Scalar, now: u64, canvas: (u32, u32)) -> (
    answer: Answer)
        ensures
            final(self)@ == old(self)@.made(
                old(self)@.asked_for_good_by(slider, value),
                now,
                canvas,
            ),
            answered(answer) == old(self)@.commit_answer(
                old(self)@.asked_for_good_by(slider, value),
                now,
                canvas,
            ),
    {
        let limited: Scalar = slider.limit(value);
        let kind: Kind = slider.which();
        let operation: Operation = match &self.document {
            Some(document) => {
                let base: Operation = if kind == Kind::ShadowsHighlights {
                    match self.starts.get(kind) {
                        Some(operation) => operation,
                        None => document.operation(kind),
                    }
                } else {
                    document.operation(kind)
                };
                slider.apply(base, limited)
            },
            None => return Ok(None),
        };
        self.commit_edit(operation, now, canvas)
    }

    /// Sets a number for good and asks for a preview, as on entering it.
    pub fn submit_slider(&mut self, slider: Slider, value: Scalar, now: u64, canvas: (u32, u32)) -> (
    result: (Option<DocumentError>, Option<PreviewRequest>))
        requires
            slider != Slider::Rotation,
        ensures
            ({
                let operation = old(self)@.asked_for_good_by(slider, value);
                let made = old(self)@.made(operation, now, canvas);
                &&& final(self)@ == made.queued(now, canvas)
                &&& state::asked(result.1) == made.next_request(canvas)
                &&& result.0 == match old(self)@.commit_answer(operation, now, canvas) {
                    Err(error) => Some(error),
                    Ok(_) => None,
                }
            }),
    {
        let error: Option<DocumentError> = match self.commit_slider(slider, value, now, canvas) {
            Err(error) => Some(error),
            Ok(_) => None,
        };
        (error, self.queue_preview(now, canvas))
    }

    /// Resets a number other than the straightening.
    pub fn reset_slider(&mut self, slider: Slider, now: u64, canvas: (u32, u32)) -> (request: Option<
        PreviewRequest,
    >)
        requires
            slider != Slider::Rotation,
        ensures
            final(self)@ == if old(self)@.can_reset(slider) {
                old(self)@.resetting(slider, now).queued(now, canvas)
            } else {
                old(self)@
            },
            state::asked(request) == if old(self)@.can_reset(slider) {
                old(self)@.resetting(slider, now).next_request(canvas)
            } else {
                None
            },
    {
        let kind: Kind = slider.which();
        if self.curve_edit_start.is_some() || (self.crop_edit_start.is_some() && kind
            != Kind::Exposure) {
            return None;
        }
        let mut document: ProjectDocument = match self.document.take() {
            Some(document) => document,
            None => return None,
        };
        let before: Operation = document.operation(kind);
        let after: Operation = slider.clear(before);
        let result: Result<(), DocumentError> = document.commit_operation(before, after);
        self.document = Some(document);
        if result.is_err() {
            return None;
        }
        self.starts.end(kind);
        self.changed_at = Some(now);
        self.queue_preview(now, canvas)
    }

    /// Takes the straightening back.
    pub fn reset_rotation(&mut self, now: u64, canvas: (u32, u32)) -> (answer: Answer)
        ensures
            ({
                let level = Operation::Straighten { degrees: Scalar { bits: constants::ZERO } };
                if old(self)@.is_straightened() {
                    &&& final(self)@ == old(self)@.rotation_begun().made(level, now, canvas)
                    &&& answered(answer) == old(self)@.rotation_begun().commit_answer(
                        level,
                        now,
                        canvas,
                    )
                } else {
                    &&& final(self)@ == old(self)@
                    &&& answer == Ok::<Option<PreviewRequest>, DocumentError>(None)
                }
            }),
    {
        let before: Scalar = match &self.document {
            Some(document) => document.straighten_degrees(),
            None => Scalar { bits: constants::ZERO },
        };
        if before.abs().less_or_equal(Scalar { bits: constants::EPSILON }) {
            return Ok(None);
        }
        self.starts.rotation = Some(before);
        self.commit_edit(
            Operation::Straighten { degrees: Scalar { bits: constants::ZERO } },
            now,
            canvas,
        )
    }

    /// Gives the frame another colour.
    pub fn change_frame_color(&mut self, color: FrameColor, now: u64, canvas: (u32, u32)) -> (
    answer: Answer)
        ensures
            ({
                let before = old(self)@.document->0.operation_of(Kind::Frame);
                let after = old(self)@.recolored(color);
                let outcome = project::change_outcome(before, after);
                if old(self)@.refuses(Kind::Frame) {
                    &&& final(self)@ == old(self)@
                    &&& answer == Ok::<Option<PreviewRequest>, DocumentError>(None)
                } else if outcome is Err {
                    &&& final(self)@ == old(self)@
                    &&& answer == Err::<Option<PreviewRequest>, DocumentError>(outcome->Err_0)
                } else {
                    &&& final(self)@ == old(self)@.making(before, after, now).queued(now, canvas)
                    &&& answered(answer) == Ok::<Option<RequestView>, DocumentError>(
                        old(self)@.making(before, after, now).next_request(canvas),
                    )
                }
            }),
    {
        if self.is_in_a_mode() {
            return Ok(None);
        }
        let mut document: ProjectDocument = match self.document.take() {
            Some(document) => document,
            None => return Ok(None),
        };
        let before: Operation = document.operation(Kind::Frame);
        let (width_pct, _) = document.frame();
        let after = Operation::Frame { width_pct, color };
        let result: Result<(), DocumentError> = document.commit_operation(before, after);
        self.document = Some(document);
        if let Err(error) = result {
            return Err(error);
        }
        self.changed_at = Some(now);
        Ok(self.queue_preview(now, canvas))
    }

    /// Takes every adjustment back. Says whether there was any.
    pub fn restore_original(&mut self, now: u64, canvas: (u32, u32)) -> (result: (
        bool,
        Option<PreviewRequest>,
    ))
        ensures
            result.0 == old(self)@.can_restore(),
            final(self)@ == if result.0 {
                old(self)@.restoring(now).queued(now, canvas)
            } else {
                old(self)@
            },
            state::asked(result.1) == if result.0 {
                old(self)@.restoring(now).next_request(canvas)
            } else {
                None
            },
    {
        if self.is_in_a_mode() {
            return (false, None);
        }
        let mut document: ProjectDocument = match self.document.take() {
            Some(document) => document,
            None => return (false, None),
        };
        if !document.restore_original() {
            self.document = Some(document);
            return (false, None);
        }
        document.view = ViewState::default();
        self.document = Some(document);
        self.starts = EditStarts::none();
        self.changed_at = Some(now);
        (true, self.queue_preview(now, canvas))
    }

    /// Whether the photo and its crop are in a state to be turned, as those of
    /// every valid document are.
    pub fn is_ready_to_turn(&self, delta: i32) -> (result: bool)
        ensures
            result == self@.turn_is_possible(delta),
    {
        if self.is_in_a_mode() || delta < -128 || delta > 127 {
            return true;
        }
        match &self.document {
            Some(document) => {
                let turns: i32 = (delta + 128) % 4;
                let rect: CropRect = document.crop_rect();
                document.rotation_quarter_turns() as i32 + turns <= 255 && (turns == 0 || (
                !rect.width.is_nan() && !rect.height.is_nan()))
            },
            None => true,
        }
    }

    /// Turns the photo by quarter turns to the right. Says whether it was
    /// turned.
    pub fn rotate_quarter_turn(&mut self, delta: i32, now: u64, canvas: (u32, u32)) -> (result:
        Result<(bool, Option<PreviewRequest>), DocumentError>)
        requires
            old(self)@.turn_is_possible(delta),
        ensures
            match result {
                Ok((turned, request)) => {
                    &&& turned == old(self)@.can_turn(delta)
                    &&& turned ==> old(self)@.turned_crop(delta).valid()
                    &&& final(self)@ == if turned {
                        old(self)@.turning(delta, now).queued(now, canvas)
                    } else {
                        old(self)@
                    }
                    &&& state::asked(request) == if turned {
                        old(self)@.turning(delta, now).next_request(canvas)
                    } else {
                        None
                    }
                },
                Err(error) => {
                    &&& old(self)@.can_turn(delta)
                    &&& !old(self)@.turned_crop(delta).valid()
                    &&& error == old(self)@.turned_crop(delta).error()
                    &&& final(self)@ == old(self)@.holding(
                        old(self)@.document->0.set(
                            Operation::Rotate {
                                quarter_turns: old(self)@.document->0.turns_after(
                                    delta as int % 4,
                                ),
                            },
                        ),
                    )
                },
            },
    {
        if self.is_in_a_mode() || delta < -128 || delta > 127 {
            return Ok((false, None));
        }
        let mut document: ProjectDocument = match self.document.take() {
            Some(document) => document,
            None => return Ok((false, None)),
        };
        let result: Result<(), DocumentError> = document.rotate_by(delta as i8);
        if let Err(error) = result {
            self.document = Some(document);
            return Err(error);
        }
        document.view = ViewState::default();
        self.document = Some(document);
        self.starts.rotation = None;
        self.changed_at = Some(now);
        Ok((true, self.queue_preview(now, canvas)))
    }

    /// Undoes the newest command.
    pub fn undo(&mut self, now: u64, canvas: (u32, u32)) -> (request: Option<PreviewRequest>)
        ensures
            final(self)@ == old(self)@.undone(now, canvas),
            state::asked(request) == if old(self)@.can_undo() {
                old(self)@.settled().holding(old(self)@.document->0.undone()).changed(
                    now,
                ).next_request(canvas)
            } else {
                None
            },
    {
        if self.is_in_a_mode() {
            return None;
        }
        let mut document: ProjectDocument = match self.document.take() {
            Some(document) => document,
            None => return None,
        };
        self.starts = EditStarts::none();
        let undone: bool = document.undo();
        self.document = Some(document);
        if !undone {
            return None;
        }
        self.changed_at = Some(now);
        self.queue_preview(now, canvas)
    }

    /// Makes the newest undone command again.
    pub fn redo(&mut self, now: u64, canvas: (u32, u32)) -> (request: Option<PreviewRequest>)
        ensures
            final(self)@ == old(self)@.redone(now, canvas),
            state::asked(request) == if old(self)@.can_redo() {
                old(self)@.settled().holding(old(self)@.document->0.redone()).changed(
                    now,
                ).next_request(canvas)
            } else {
                None
            },
    {
        if self.is_in_a_mode() {
            return None;
        }
        let mut document: ProjectDocument = match self.document.take() {
            Some(document) => document,
            None => return None,
        };
        self.starts = EditStarts::none();
        let redone: bool = document.redo();
        self.document = Some(document);
        if !redone {
            return None;
        }
        self.changed_at = Some(now);
        self.queue_preview(now, canvas)
    }
}

} // verus!
