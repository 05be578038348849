//! Changing the crop: it is tried out on the whole photo, and then applied or
//! given up.

use vstd::prelude::*;

use crate::document::operation::{DocumentError, Operation};
use crate::document::project;
use crate::document::project::{DocumentView, ProjectDocument};
use crate::document::values::{CropRect, ViewState};
use crate::number::constants;
use crate::number::scalar::Scalar;
use crate::render::contracts::PreviewRequest;
use crate::render::geometry::Angle;
use crate::session::edit;
use crate::session::edit::Answer;
use crate::session::gesture;
use crate::session::state;
use crate::session::state::{RequestView, Session, SessionView};

verus! {

/// A document to be saved without being asked, and where.
#[derive(Debug)]
pub struct Autosave {
    pub path: String,
    pub document: ProjectDocument,
}

/// The view of an optional save.
pub open spec fn saved(autosave: Option<Autosave>) -> Option<(Seq<char>, DocumentView)> {
    match autosave {
        Some(order) => Some((order.path@, order.document@)),
        None => None,
    }
}

/// Which of the offered aspects one is: square, four to three, or another.
pub open spec fn mode_of_aspect(aspect: Scalar) -> int {
    let close = Scalar { bits: constants::HUNDREDTH };
    let classic = (Scalar { bits: constants::FOUR }).quotient(Scalar { bits: constants::THREE });
    if aspect.difference(Scalar { bits: constants::ONE }).size().below(close) {
        1
    } else if aspect.difference(classic).size().below(close) {
        2
    } else {
        3
    }
}

/// Which of the offered aspects one is: square, four to three, or another.
pub fn aspect_mode(aspect: Scalar) -> (mode: i32)
    ensures
        mode == mode_of_aspect(aspect),
{
    let close: Scalar = Scalar { bits: constants::HUNDREDTH };
    let classic: Scalar = Scalar { bits: constants::FOUR }.over(
        Scalar { bits: constants::THREE },
    );
    if aspect.minus(Scalar { bits: constants::ONE }).abs().less(close) {
        1
    } else if aspect.minus(classic).abs().less(close) {
        2
    } else {
        3
    }
}

/// The aspect of an image.
pub open spec fn aspect_of(width: int, height: int) -> Scalar {
    Scalar::integer(width).quotient(Scalar::integer(height))
}

/// The largest crop of an aspect in the middle of an image, before it is
/// brought inside the image.
pub open spec fn centred(target: Scalar, image: Scalar) -> CropRect {
    let one = Scalar { bits: constants::ONE };
    let two = Scalar { bits: constants::TWO };
    let (width, height) = if target.at_most(image) {
        (target.quotient(image), one)
    } else {
        (one, image.quotient(target))
    };
    CropRect {
        x: one.difference(width).quotient(two),
        y: one.difference(height).quotient(two),
        width,
        height,
    }
}

fn centre(target: Scalar, image: Scalar) -> (rect: CropRect)
    ensures
        rect == centred(target, image),
{
    let one: Scalar = Scalar { bits: constants::ONE };
    let two: Scalar = Scalar { bits: constants::TWO };
    let (width, height): (Scalar, Scalar) = if target.less_or_equal(image) {
        (target.over(image), one)
    } else {
        (one, image.over(target))
    };
    CropRect { x: one.minus(width).over(two), y: one.minus(height).over(two), width, height }
}

/// Where the photo lies on the canvas, in logical pixels.
#[derive(Clone, Copy, Debug, PartialEq)]
pub struct Overlay {
    pub x: Scalar,
    pub y: Scalar,
    pub width: Scalar,
    pub height: Scalar,
}

/// The start and the extent of the photo on one side of the canvas.
pub open spec fn on_canvas(
    pixels: int,
    zoom: Scalar,
    scale_factor: Scalar,
    canvas: i32,
) -> (Scalar, Scalar) {
    let photo = Scalar::integer(pixels).product(zoom).quotient(scale_factor);
    let whole = Scalar::integer(canvas as int);
    (
        whole.difference(photo).quotient(Scalar { bits: constants::TWO }).greater(
            Scalar { bits: constants::ZERO },
        ),
        photo.lesser(whole),
    )
}

fn place_on_canvas(pixels: u32, zoom: Scalar, scale_factor: Scalar, canvas: i32) -> (place: (
    Scalar,
    Scalar,
))
    ensures
        place == on_canvas(pixels as int, zoom, scale_factor, canvas),
{
    let photo: Scalar = Scalar::from_integer(pixels as i64).times(zoom).over(scale_factor);
    let whole: Scalar = Scalar::from_integer(canvas as i64);
    (
        whole.minus(photo).over(Scalar { bits: constants::TWO }).max(
            Scalar { bits: constants::ZERO },
        ),
        photo.min(whole),
    )
}

impl SessionView {
    /// What is to be saved now, without being asked.
    pub open spec fn to_save(self) -> Option<(Seq<char>, DocumentView)> {
        match (self.document, self.project_path) {
            (Some(document), Some(path)) => Some((path, document)),
            (Some(document), None) => Some((self.recovery_path, document)),
            (None, _) => None,
        }
    }

    /// The session with the crop being changed.
    pub open spec fn cropping(self) -> SessionView {
        let document = self.document->0;
        SessionView {
            crop_edit_start: Some(document.crop()),
            crop_saved_view: Some(document.view),
            crop_aspect_ratio: None,
            changed_at: None,
            ..self.holding(state::shown_whole(document))
        }
    }

    /// The aspect that the crop is locked to, as a ratio of its fractions.
    pub open spec fn locked_aspect(self, angle: Angle) -> Option<Scalar> {
        match (self.crop_aspect_ratio, self.document, self.image_info) {
            (Some(target), Some(document), Some(info)) => {
                let (width, height) = document.geometry(info.width, info.height, angle);
                Some(target.quotient(aspect_of(width, height)))
            },
            _ => None,
        }
    }

    /// The crop after a gesture.
    pub open spec fn gestured(
        self,
        start: CropRect,
        kind: i32,
        delta_x: Scalar,
        delta_y: Scalar,
        angle: Angle,
    ) -> Option<CropRect> {
        match gesture::grip_of(kind) {
            Some(grip) => if self.crops() && self.document is Some {
                Some(
                    gesture::changed(
                        start,
                        grip,
                        delta_x,
                        delta_y,
                        self.locked_aspect(angle),
                    ).inside(),
                )
            } else {
                None
            },
            None => None,
        }
    }

    /// Whether a gesture is possible.
    pub open spec fn gesture_is_possible(
        self,
        start: CropRect,
        kind: i32,
        delta_x: Scalar,
        delta_y: Scalar,
        angle: Angle,
    ) -> bool {
        gesture::grip_of(kind) matches Some(grip) ==> gesture::change_is_possible(
            start,
            grip,
            delta_x,
            delta_y,
            self.locked_aspect(angle),
        )
    }

    /// The session with a crop tried out, if it may be cropped to.
    pub open spec fn crop_tried(self, rect: CropRect) -> SessionView {
        if rect.valid() {
            self.holding(self.document->0.set(Operation::Crop { rect }))
        } else {
            self
        }
    }

    /// The crop that an aspect asks for: the whole image for zero.
    pub open spec fn aspect_crop(self, target: Scalar, angle: Angle) -> CropRect {
        if target.at_most(Scalar { bits: constants::ZERO }) {
            CropRect::whole()
        } else {
            let (width, height) = self.document->0.geometry(
                self.image_info->0.width,
                self.image_info->0.height,
                angle,
            );
            centred(target, aspect_of(width, height)).inside()
        }
    }

    /// Whether the crop that an aspect asks for has an extent.
    pub open spec fn aspect_is_possible(self, target: Scalar, angle: Angle) -> bool {
        self.document is Some && self.image_info is Some && !target.at_most(
            Scalar { bits: constants::ZERO },
        ) ==> {
            let (width, height) = self.document->0.geometry(
                self.image_info->0.width,
                self.image_info->0.height,
                angle,
            );
            centred(target, aspect_of(width, height)).measurable()
        }
    }

    /// The session after an aspect has been chosen: none below zero.
    pub open spec fn at_aspect(self, target: Scalar, angle: Angle) -> SessionView {
        let zero = Scalar { bits: constants::ZERO };
        if !self.crops() {
            self
        } else if target.below(zero) {
            SessionView { crop_aspect_ratio: None, ..self }
        } else if self.document is None || self.image_info is None {
            self
        } else {
            SessionView {
                crop_aspect_ratio: if target.at_most(zero) {
                    None
                } else {
                    Some(target)
                },
                ..self
            }.crop_tried(self.aspect_crop(target, angle))
        }
    }

    /// The session with the crop no longer being changed.
    pub open spec fn crop_left(self) -> SessionView {
        SessionView {
            crop_edit_start: None,
            crop_saved_view: None,
            crop_aspect_ratio: None,
            ..self
        }
    }

    /// The session after the crop has been applied, before the preview is
    /// asked for.
    pub open spec fn applying(self, now: u64) -> SessionView {
        let document = self.document->0;
        let before = self.crop_edit_start->0;
        let after = document.crop();
        self.crop_left().holding(
            state::shown_whole(
                document.committed(
                    Operation::Crop { rect: before },
                    Operation::Crop { rect: after },
                    !before.same(after),
                ),
            ),
        ).changed(now)
    }

    /// The session after the crop has been given up, before the preview is
    /// asked for.
    pub open spec fn giving_up(self) -> SessionView {
        let tried = self.crop_left().crop_tried(self.crop_edit_start->0);
        match self.crop_saved_view {
            Some(view) => tried.holding(DocumentView { view, ..tried.document->0 }),
            None => tried,
        }
    }

    /// Where the photo lies while the crop is being changed.
    pub open spec fn overlay(
        self,
        scale_factor: Scalar,
        canvas: (i32, i32),
        angle: Angle,
    ) -> Option<Overlay> {
        if self.crops() && self.document is Some && self.image_info is Some {
            let (width, height) = self.document->0.geometry(
                self.image_info->0.width,
                self.image_info->0.height,
                angle,
            );
            let across = on_canvas(width, self.effective_zoom, scale_factor, canvas.0);
            let down = on_canvas(height, self.effective_zoom, scale_factor, canvas.1);
            Some(Overlay { x: across.0, y: down.0, width: across.1, height: down.1 })
        } else {
            None
        }
    }
}

impl Session {
    /// What is to be saved now, without being asked.
    pub fn flush_autosave(&self) -> (autosave: Option<Autosave>)
        ensures
            saved(autosave) == self@.to_save(),
    {
        match &self.document {
            Some(document) => {
                let path: String = match &self.project_path {
                    Some(path) => path.clone(),
                    None => self.recovery_path.clone(),
                };
                Some(Autosave { path, document: document.duplicate() })
            },
            None => None,
        }
    }

    /// Begins to change the crop. What is not saved yet is saved first.
    pub fn start_crop(&mut self, now: u64, canvas: (u32, u32)) -> (result: (
        Option<Autosave>,
        Option<PreviewRequest>,
    ))
        ensures
            ({
                let session = old(self)@;
                if session.in_a_mode() {
                    &&& final(self)@ == session
                    &&& result.0 is None && result.1 is None
                } else if session.document is None {
                    &&& final(self)@ == (SessionView { changed_at: None, ..session })
                    &&& result.0 is None && result.1 is None
                } else {
                    &&& final(self)@ == session.cropping().queued(now, canvas)
                    &&& saved(result.0) == session.to_save()
                    &&& state::asked(result.1) == session.cropping().next_request(canvas)
                }
            }),
    {
        if self.is_in_a_mode() {
            return (None, None);
        }
        let autosave: Option<Autosave> = self.flush_autosave();
        self.changed_at = None;
        let mut document: ProjectDocument = match self.document.take() {
            Some(document) => document,
            None => return (None, None),
        };
        self.crop_edit_start = Some(document.crop_rect());
        self.crop_saved_view = Some(document.view);
        self.crop_aspect_ratio = None;
        document.view = ViewState::default();
        self.document = Some(document);
        (autosave, self.queue_preview(now, canvas))
    }

    /// The aspect that the crop is locked to, as a ratio of its fractions.
    pub fn normalized_crop_aspect(&self, angle: Angle) -> (aspect: Option<Scalar>)
        ensures
            aspect == self@.locked_aspect(angle),
    {
        match (self.crop_aspect_ratio, &self.document, self.image_info) {
            (Some(target), Some(document), Some(info)) => {
                let (width, height): (u32, u32) = document.geometry_dimensions(
                    info.width,
                    info.height,
                    angle,
                );
                let image: Scalar = Scalar::from_integer(width as i64).over(
                    Scalar::from_integer(height as i64),
                );
                Some(target.over(image))
            },
            _ => None,
        }
    }

    /// Tries a crop out, if it may be cropped to.
    fn try_crop(&mut self, rect: CropRect) -> (tried: bool)
        requires
            old(self)@.document is Some,
        ensures
            tried == rect.valid(),
            final(self)@ == old(self)@.crop_tried(rect),
    {
        match self.document.take() {
            Some(mut document) => {
                let result: Result<(), DocumentError> = document.preview_crop(rect);
                self.document = Some(document);
                result.is_ok()
            },
            None => false,
        }
    }

    /// Changes the crop by a gesture. Says whether it was changed.
    pub fn update_crop_gesture(
        &mut self,
        start: CropRect,
        kind: i32,
        delta_x: Scalar,
        delta_y: Scalar,
        angle: Angle,
    ) -> (shown: bool)
        requires
            old(self)@.gesture_is_possible(start, kind, delta_x, delta_y, angle),
        ensures
            match old(self)@.gestured(start, kind, delta_x, delta_y, angle) {
                Some(rect) => {
                    &&& shown == rect.valid()
                    &&& final(self)@ == old(self)@.crop_tried(rect)
                },
                None => !shown && final(self)@ == old(self)@,
            },
    {
        if self.crop_edit_start.is_none() || self.document.is_none() {
            return false;
        }
        let locked: Option<Scalar> = self.normalized_crop_aspect(angle);
        match gesture::crop_from_gesture(start, kind, delta_x, delta_y, locked) {
            Some(rect) => self.try_crop(rect),
            None => false,
        }
    }

    /// Whether an aspect asks for a crop with an extent.
    pub fn is_possible_aspect(&self, target: Scalar, angle: Angle) -> (result: bool)
        ensures
            result == self@.aspect_is_possible(target, angle),
    {
        if target.less_or_equal(Scalar { bits: constants::ZERO }) {
            return true;
        }
        match (&self.document, self.image_info) {
            (Some(document), Some(info)) => {
                let (width, height): (u32, u32) = document.geometry_dimensions(
                    info.width,
                    info.height,
                    angle,
                );
                let image: Scalar = Scalar::from_integer(width as i64).over(
                    Scalar::from_integer(height as i64),
                );
                let rect: CropRect = centre(target, image);
                !rect.width.is_nan() && !rect.height.is_nan()
            },
            _ => true,
        }
    }

    /// Locks the crop to an aspect and tries out the largest crop of it. An
    /// aspect of zero asks for the whole image, one below zero frees the crop.
    pub fn set_crop_aspect(&mut self, target: Scalar, angle: Angle)
        requires
            old(self)@.aspect_is_possible(target, angle),
        ensures
            final(self)@ == old(self)@.at_aspect(target, angle),
    {
        if self.crop_edit_start.is_none() {
            return;
        }
        let zero: Scalar = Scalar { bits: constants::ZERO };
        if target.less(zero) {
            self.crop_aspect_ratio = None;
            return;
        }
        let (rect, locked): (CropRect, Option<Scalar>) = match (&self.document, self.image_info) {
            (Some(document), Some(info)) => {
                if target.less_or_equal(zero) {
                    (CropRect::full(), None)
                } else {
                    let (width, height): (u32, u32) = document.geometry_dimensions(
                        info.width,
                        info.height,
                        angle,
                    );
                    let image: Scalar = Scalar::from_integer(width as i64).over(
                        Scalar::from_integer(height as i64),
                    );
                    (centre(target, image).normalized(), Some(target))
                }
            },
            _ => {
                return;
            },
        };
        self.crop_aspect_ratio = locked;
        let _ = self.try_crop(rect);
    }

    /// Applies the crop as one command.
    pub fn apply_crop(&mut self, now: u64, canvas: (u32, u32)) -> (answer: Answer)
        ensures
            ({
                let session = old(self)@;
                let outcome = project::change_outcome(
                    Operation::Crop { rect: session.crop_edit_start->0 },
                    Operation::Crop { rect: session.document->0.crop() },
                );
                if !session.crops() || session.document is None {
                    &&& final(self)@ == (SessionView { crop_edit_start: None, ..session })
                    &&& answer == Ok::<Option<PreviewRequest>, DocumentError>(None)
                } else if outcome is Err {
                    &&& final(self)@ == (SessionView { crop_edit_start: None, ..session })
                    &&& answer == Err::<Option<PreviewRequest>, DocumentError>(outcome->Err_0)
                } else {
                    &&& final(self)@ == session.applying(now).queued(now, canvas)
                    &&& edit::answered(answer) == Ok::<Option<RequestView>, DocumentError>(
                        session.applying(now).next_request(canvas),
                    )
                }
            }),
    {
        let before: CropRect = match self.crop_edit_start.take() {
            Some(before) => before,
            None => return Ok(None),
        };
        let mut document: ProjectDocument = match self.document.take() {
            Some(document) => document,
            None => return Ok(None),
        };
        let after: CropRect = document.crop_rect();
        let result: Result<(), DocumentError> = document.commit_crop(before, after);
        if let Err(error) = result {
            self.document = Some(document);
            return Err(error);
        }
        self.crop_saved_view = None;
        self.crop_aspect_ratio = None;
        document.view = ViewState::default();
        self.document = Some(document);
        self.changed_at = Some(now);
        Ok(self.queue_preview(now, canvas))
    }

    /// Gives the change of the crop up. Says whether there was one.
    pub fn cancel_crop(&mut self, now: u64, canvas: (u32, u32)) -> (result: (
        bool,
        Option<PreviewRequest>,
    ))
        ensures
            ({
                let session = old(self)@;
                if !session.crops() || session.document is None {
                    &&& final(self)@ == (SessionView { crop_edit_start: None, ..session })
                    &&& !result.0 && result.1 is None
                } else {
                    &&& result.0
                    &&& final(self)@ == session.giving_up().queued(now, canvas)
                    &&& state::asked(result.1) == session.giving_up().next_request(canvas)
                }
            }),
    {
        let original: CropRect = match self.crop_edit_start.take() {
            Some(original) => original,
            None => return (false, None),
        };
        let mut document: ProjectDocument = match self.document.take() {
            Some(document) => document,
            None => return (false, None),
        };
        let _ = document.preview_crop(original);
        self.crop_aspect_ratio = None;
        if let Some(view) = self.crop_saved_view.take() {
            document.view = view;
        }
        self.document = Some(document);
        (true, self.queue_preview(now, canvas))
    }

    /// Where the photo lies on the canvas while the crop is being changed.
    pub fn crop_overlay(&self, scale_factor: Scalar, canvas: (i32, i32), angle: Angle) -> (overlay:
        Option<Overlay>)
        ensures
            overlay == self@.overlay(scale_factor, canvas, angle),
    {
        if self.crop_edit_start.is_none() {
            return None;
        }
        match (&self.document, self.image_info) {
            (Some(document), Some(info)) => {
                let (width, height): (u32, u32) = document.geometry_dimensions(
                    info.width,
                    info.height,
                    angle,
                );
                let across: (Scalar, Scalar) = place_on_canvas(
                    width,
                    self.effective_zoom,
                    scale_factor,
                    canvas.0,
                );
                let down: (Scalar, Scalar) = place_on_canvas(
                    height,
                    self.effective_zoom,
                    scale_factor,
                    canvas.1,
                );
                Some(Overlay { x: across.0, y: down.0, width: across.1, height: down.1 })
            },
            _ => None,
        }
    }
}

} // verus!
