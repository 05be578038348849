//! Changing the tone curve: its points are dragged, and each drag becomes one
//! command.

use vstd::prelude::*;

use crate::document::curve::ToneCurve;
use crate::document::laws;
use crate::document::operation::{DocumentError, Operation};
use crate::document::project;
use crate::document::project::ProjectDocument;
use crate::number::constants;
use crate::number::scalar::Scalar;
use crate::render::contracts::PreviewRequest;
use crate::session::crop;
use crate::session::crop::Autosave;
use crate::session::curve_laws;
use crate::session::edit;
use crate::session::edit::Answer;
use crate::session::state;
use crate::session::state::{RequestView, Session, SessionView};

verus! {

/// The inputs that a point of a curve can be dragged between, if there is
/// such a point.
pub open spec fn reach(curve: ToneCurve, point: i32) -> Option<(Scalar, Scalar)> {
    let gap = Scalar { bits: constants::THOUSANDTH };
    if point == 0 {
        Some((gap, curve.midtone_input.difference(gap)))
    } else if point == 1 {
        Some((curve.shadow_input.sum(gap), curve.highlight_input.difference(gap)))
    } else if point == 2 {
        Some(
            (curve.midtone_input.sum(gap), (Scalar { bits: constants::ONE }).difference(gap)),
        )
    } else {
        None
    }
}

/// Whether a point has room to be dragged.
pub open spec fn can_be_dragged(curve: ToneCurve, point: i32) -> bool {
    reach(curve, point) matches Some((low, high)) ==> low.at_most(high)
}

/// A curve with a point dragged, if there is such a point. The place is
/// brought into the square from zero to one first.
pub open spec fn dragged(
    curve: ToneCurve,
    point: i32,
    input: Scalar,
    value: Scalar,
) -> Option<ToneCurve> {
    let zero = Scalar { bits: constants::ZERO };
    let one = Scalar { bits: constants::ONE };
    let value = value.clamped(zero, one);
    match reach(curve, point) {
        Some((low, high)) => {
            let input = input.clamped(zero, one).clamped(low, high);
            Some(
                if point == 0 {
                    ToneCurve { shadow_input: input, shadows: value, ..curve }
                } else if point == 1 {
                    ToneCurve { midtone_input: input, midtones: value, ..curve }
                } else {
                    ToneCurve { highlight_input: input, highlights: value, ..curve }
                },
            )
        },
        None => None,
    }
}

/// The inputs that a point of a curve can be dragged between.
fn find_reach(curve: ToneCurve, point: i32) -> (result: Option<(Scalar, Scalar)>)
    ensures
        result == reach(curve, point),
{
    let gap: Scalar = Scalar { bits: constants::THOUSANDTH };
    if point == 0 {
        Some((gap, curve.midtone_input.minus(gap)))
    } else if point == 1 {
        Some((curve.shadow_input.plus(gap), curve.highlight_input.minus(gap)))
    } else if point == 2 {
        Some((curve.midtone_input.plus(gap), Scalar { bits: constants::ONE }.minus(gap)))
    } else {
        None
    }
}

/// Whether a point has room to be dragged.
pub fn point_can_be_dragged(curve: ToneCurve, point: i32) -> (result: bool)
    ensures
        result == can_be_dragged(curve, point),
{
    match find_reach(curve, point) {
        Some((low, high)) => low.less_or_equal(high),
        None => true,
    }
}

/// A curve with a point dragged.
pub fn drag(curve: ToneCurve, point: i32, input: Scalar, value: Scalar) -> (result: Option<ToneCurve>)
    requires
        can_be_dragged(curve, point),
    ensures
        result == dragged(curve, point, input, value),
        result is Some <==> 0 <= point <= 2,
        curve.valid() && input.finite() && value.finite() && 0 <= point <= 2
            ==> curve_laws::has_a_point_dragged(curve, point, input, value, result.unwrap()),
{
    proof {
        if curve.valid() && input.finite() && value.finite() {
            curve_laws::a_dragged_point_follows_the_pointer(curve, point, input, value);
        }
    }
    let zero: Scalar = Scalar { bits: constants::ZERO };
    let one: Scalar = Scalar { bits: constants::ONE };
    let (low, high): (Scalar, Scalar) = match find_reach(curve, point) {
        Some(reach) => reach,
        None => return None,
    };
    let input: Scalar = input.clamp(zero, one).clamp(low, high);
    let value: Scalar = value.clamp(zero, one);
    let mut result: ToneCurve = curve;
    if point == 0 {
        result.shadow_input = input;
        result.shadows = value;
    } else if point == 1 {
        result.midtone_input = input;
        result.midtones = value;
    } else {
        result.highlight_input = input;
        result.highlights = value;
    }
    Some(result)
}

impl SessionView {
    /// The session with the tone curve being changed.
    pub open spec fn curving(self) -> SessionView {
        SessionView {
            curve_edit_start: Some(self.document->0.curve()),
            changed_at: None,
            ..self
        }
    }

    /// The session with a curve tried out.
    pub open spec fn curve_tried(self, curve: ToneCurve) -> SessionView {
        self.holding(self.document->0.set(Operation::ToneCurve { curve }))
    }

    /// Whether there is a change of the curve to make for good.
    pub open spec fn curve_is_changed(self) -> bool {
        self.curves() && self.document is Some && !self.curve_edit_start->0.same(
            self.document->0.curve(),
        )
    }

    /// What comes of making the change of the curve for good.
    pub open spec fn curve_outcome(self) -> Result<(), DocumentError> {
        project::change_outcome(
            Operation::ToneCurve { curve: self.curve_edit_start->0 },
            Operation::ToneCurve { curve: self.document->0.curve() },
        )
    }

    /// The session after the change of the curve has been made for good.
    pub open spec fn curve_made(self, now: u64) -> SessionView {
        if self.curve_is_changed() && self.curve_outcome() is Ok {
            let after = self.document->0.curve();
            SessionView {
                curve_edit_start: Some(after),
                ..self.holding(
                    self.document->0.committed(
                        Operation::ToneCurve { curve: self.curve_edit_start->0 },
                        Operation::ToneCurve { curve: after },
                        true,
                    ),
                ).changed(now)
            }
        } else {
            self
        }
    }

    /// The session with the tone curve no longer being changed.
    pub open spec fn curve_finished(self, now: u64) -> SessionView {
        if self.curves() {
            SessionView { curve_edit_start: None, ..self.curve_made(now) }
        } else {
            self
        }
    }

    /// The error that making the change of the curve for good meets, if any.
    pub open spec fn curve_error(self) -> Option<DocumentError> {
        if self.curve_is_changed() && self.curve_outcome() is Err {
            Some(self.curve_outcome()->Err_0)
        } else {
            None
        }
    }
}

impl Session {
    /// Begins to change the tone curve. What is not saved yet is saved first.
    pub fn start_curve(&mut self) -> (autosave: Option<Autosave>)
        ensures
            ({
                let session = old(self)@;
                if session.in_a_mode() {
                    &&& final(self)@ == session
                    &&& autosave is None
                } else if session.document is None {
                    &&& final(self)@ == (SessionView { changed_at: None, ..session })
                    &&& autosave is None
                } else {
                    &&& final(self)@ == session.curving()
                    &&& crop::saved(autosave) == session.to_save()
                }
            }),
    {
        if self.is_in_a_mode() {
            return None;
        }
        let autosave: Option<Autosave> = self.flush_autosave();
        self.changed_at = None;
        if let Some(document) = &self.document {
            self.curve_edit_start = Some(document.tone_curve());
        }
        autosave
    }

    /// Drags a point of the tone curve.
    pub fn preview_curve(
        &mut self,
        point: i32,
        input: Scalar,
        value: Scalar,
        now: u64,
        canvas: (u32, u32),
    ) -> (answer: Answer)
        requires
            old(self)@.document is Some ==> can_be_dragged(old(self)@.document->0.curve(), point),
        ensures
            ({
                let session = old(self)@;
                let curve = dragged(session.document->0.curve(), point, input, value);
                if !session.curves() || session.document is None || curve is None {
                    &&& final(self)@ == session
                    &&& answer == Ok::<Option<PreviewRequest>, DocumentError>(None)
                } else if !curve->0.valid() {
                    &&& final(self)@ == session
                    &&& answer == Err::<Option<PreviewRequest>, DocumentError>(
                        Operation::ToneCurve { curve: curve->0 }.error(),
                    )
                } else {
                    &&& final(self)@ == session.curve_tried(curve->0).queued(now, canvas)
                    &&& edit::answered(answer) == Ok::<Option<RequestView>, DocumentError>(
                        session.curve_tried(curve->0).next_request(canvas),
                    )
                }
            }),
    {
        if self.curve_edit_start.is_none() {
            return Ok(None);
        }
        let curve: ToneCurve = match &self.document {
            Some(document) => match drag(document.tone_curve(), point, input, value) {
                Some(curve) => curve,
                None => return Ok(None),
            },
            None => return Ok(None),
        };
        match self.document.take() {
            Some(mut document) => {
                let result: Result<(), DocumentError> = document.preview_tone_curve(curve);
                self.document = Some(document);
                match result {
                    Err(error) => Err(error),
                    Ok(()) => Ok(self.queue_preview(now, canvas)),
                }
            },
            None => Ok(None),
        }
    }

    /// Makes the change of the tone curve for good, as one command. Says
    /// whether there was a change.
    pub fn commit_curve_change(&mut self, now: u64) -> (result: Result<bool, DocumentError>)
        ensures
            final(self)@ == old(self)@.curve_made(now),
            result == match old(self)@.curve_error() {
                Some(error) => Err(error),
                None => Ok(old(self)@.curve_is_changed()),
            },
    {
        let before: ToneCurve = match self.curve_edit_start {
            Some(before) => before,
            None => return Ok(false),
        };
        let mut document: ProjectDocument = match self.document.take() {
            Some(document) => document,
            None => return Ok(false),
        };
        let after: ToneCurve = document.tone_curve();
        if before.equals(after) {
            self.document = Some(document);
            return Ok(false);
        }
        let result: Result<(), DocumentError> = document.commit_tone_curve(before, after);
        self.document = Some(document);
        if let Err(error) = result {
            return Err(error);
        }
        self.curve_edit_start = Some(after);
        self.changed_at = Some(now);
        Ok(true)
    }

    /// Makes the tone curve straight again, as one command.
    pub fn reset_curve(&mut self, now: u64, canvas: (u32, u32)) -> (result: (
        Result<bool, DocumentError>,
        Option<PreviewRequest>,
    ))
        ensures
            ({
                let session = old(self)@;
                let tried = session.curve_tried(ToneCurve::straight());
                let queued = tried.queued(now, canvas);
                if !session.curves() || session.document is None {
                    &&& final(self)@ == session
                    &&& result.0 == Ok::<bool, DocumentError>(false)
                    &&& result.1 is None
                } else {
                    &&& final(self)@ == queued.curve_made(now)
                    &&& state::asked(result.1) == tried.next_request(canvas)
                    &&& result.0 == match queued.curve_error() {
                        Some(error) => Err::<bool, DocumentError>(error),
                        None => Ok::<bool, DocumentError>(queued.curve_is_changed()),
                    }
                }
            }),
    {
        if self.curve_edit_start.is_none() {
            return (Ok(false), None);
        }
        let mut document: ProjectDocument = match self.document.take() {
            Some(document) => document,
            None => return (Ok(false), None),
        };
        proof {
            laws::untouched_is_valid();
        }
        let _ = document.preview_tone_curve(ToneCurve::identity());
        self.document = Some(document);
        let request: Option<PreviewRequest> = self.queue_preview(now, canvas);
        (self.commit_curve_change(now), request)
    }

    /// Ends the change of the tone curve, and makes what is left of it for
    /// good.
    pub fn finish_curve(&mut self, now: u64) -> (result: Result<bool, DocumentError>)
        ensures
            final(self)@ == old(self)@.curve_finished(now),
            result == match old(self)@.curve_error() {
                Some(error) => Err(error),
                None => Ok(old(self)@.curve_is_changed()),
            },
    {
        if self.curve_edit_start.is_none() {
            return Ok(false);
        }
        let result: Result<bool, DocumentError> = self.commit_curve_change(now);
        self.curve_edit_start = None;
        result
    }
}

} // verus!
