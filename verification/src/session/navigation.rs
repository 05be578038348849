//! Zooming and panning.

use vstd::prelude::*;

use crate::document::project::{DocumentView, ProjectDocument};
use crate::document::values::ViewState;
use crate::number::constants;
use crate::number::scalar::Scalar;
use crate::render::contracts::PreviewRequest;
use crate::render::geometry::Angle;
use crate::session::state;
use crate::session::state::{Session, SessionView};

verus! {

/// A zoom within what is offered.
pub open spec fn offered_zoom(zoom: Scalar) -> Scalar {
    zoom.clamped(Scalar { bits: constants::HUNDREDTH }, Scalar { bits: constants::THIRTY_TWO })
}

/// A centre after the photo has been dragged by some logical pixels.
pub open spec fn dragged_centre(
    centre: Scalar,
    delta: Scalar,
    scale_factor: Scalar,
    pixels: int,
    zoom: Scalar,
) -> Scalar {
    centre.difference(
        delta.product(scale_factor).quotient(Scalar::integer(pixels).product(zoom)),
    ).clamped(Scalar { bits: constants::ZERO }, Scalar { bits: constants::ONE })
}

fn drag_centre(centre: Scalar, delta: Scalar, scale_factor: Scalar, pixels: u64, zoom: Scalar) -> (
result: Scalar)
    requires
        pixels <= i64::MAX,
    ensures
        result == dragged_centre(centre, delta, scale_factor, pixels as int, zoom),
{
    centre.minus(
        delta.times(scale_factor).over(Scalar::from_integer(pixels as i64).times(zoom)),
    ).clamp(Scalar { bits: constants::ZERO }, Scalar { bits: constants::ONE })
}

impl SessionView {
    /// The session with another view of the photo, before the preview is
    /// asked for.
    pub open spec fn seen(self, view: ViewState, now: u64) -> SessionView {
        self.holding(DocumentView { view, ..self.document->0 }).changed(now)
    }

    /// Whether the view of the photo can be changed.
    pub open spec fn can_look(self) -> bool {
        self.document is Some && !self.in_a_mode()
    }

    /// The zoom that the photo is shown at.
    pub open spec fn current_zoom(self) -> Scalar {
        let zoom = self.document->0.view.zoom;
        if zoom.at_most(Scalar { bits: constants::ZERO }) {
            self.effective_zoom
        } else {
            zoom
        }
    }

    /// The view after zooming by a factor.
    pub open spec fn zoomed(self, factor: Scalar) -> ViewState {
        ViewState {
            zoom: offered_zoom(self.current_zoom().product(factor)),
            ..self.document->0.view
        }
    }

    /// Whether the photo can be dragged: it is not fitted to the canvas.
    pub open spec fn can_pan(self) -> bool {
        &&& self.can_look()
        &&& self.image_info is Some
        &&& !self.document->0.view.zoom.at_most(Scalar { bits: constants::ZERO })
    }

    /// The view after the photo has been dragged.
    pub open spec fn panned(
        self,
        delta_x: Scalar,
        delta_y: Scalar,
        scale_factor: Scalar,
        angle: Angle,
    ) -> ViewState {
        let view = self.document->0.view;
        let zoom = view.zoom.greater(Scalar { bits: constants::HUNDREDTH });
        let (width, height) = self.document->0.output(
            self.image_info->0.width,
            self.image_info->0.height,
            angle,
        );
        ViewState {
            zoom: view.zoom,
            center_x: dragged_centre(view.center_x, delta_x, scale_factor, width, zoom),
            center_y: dragged_centre(view.center_y, delta_y, scale_factor, height, zoom),
        }
    }
}

impl Session {
    /// Shows the photo at a zoom, centred.
    pub fn set_zoom(&mut self, zoom: Scalar, now: u64, canvas: (u32, u32)) -> (request: Option<
        PreviewRequest,
    >)
        ensures
            ({
                let view = ViewState { zoom, ..ViewState::initial() };
                if old(self)@.can_look() {
                    &&& final(self)@ == old(self)@.seen(view, now).queued(now, canvas)
                    &&& state::asked(request) == old(self)@.seen(view, now).next_request(canvas)
                } else {
                    &&& final(self)@ == old(self)@
                    &&& request is None
                }
            }),
    {
        if self.is_in_a_mode() {
            return None;
        }
        let mut document: ProjectDocument = match self.document.take() {
            Some(document) => document,
            None => return None,
        };
        document.view.zoom = zoom;
        document.view.center_x = Scalar { bits: constants::HALF };
        document.view.center_y = Scalar { bits: constants::HALF };
        self.document = Some(document);
        self.changed_at = Some(now);
        self.queue_preview(now, canvas)
    }

    /// Zooms by a factor.
    pub fn zoom_by(&mut self, factor: Scalar, now: u64, canvas: (u32, u32)) -> (request: Option<
        PreviewRequest,
    >)
        ensures
            ({
                let view = old(self)@.zoomed(factor);
                if old(self)@.can_look() {
                    &&& final(self)@ == old(self)@.seen(view, now).queued(now, canvas)
                    &&& state::asked(request) == old(self)@.seen(view, now).next_request(canvas)
                } else {
                    &&& final(self)@ == old(self)@
                    &&& request is None
                }
            }),
    {
        if self.is_in_a_mode() {
            return None;
        }
        let mut document: ProjectDocument = match self.document.take() {
            Some(document) => document,
            None => return None,
        };
        let starting_zoom: Scalar = if document.view.zoom.less_or_equal(
            Scalar { bits: constants::ZERO },
        ) {
            self.effective_zoom
        } else {
            document.view.zoom
        };
        document.view.zoom = starting_zoom.times(factor).clamp(
            Scalar { bits: constants::HUNDREDTH },
            Scalar { bits: constants::THIRTY_TWO },
        );
        self.document = Some(document);
        self.changed_at = Some(now);
        self.queue_preview(now, canvas)
    }

    /// Drags the photo by logical pixels.
    pub fn pan(
        &mut self,
        delta_x: Scalar,
        delta_y: Scalar,
        scale_factor: Scalar,
        angle: Angle,
        now: u64,
        canvas: (u32, u32),
    ) -> (request: Option<PreviewRequest>)
        ensures
            ({
                let view = old(self)@.panned(delta_x, delta_y, scale_factor, angle);
                if old(self)@.can_pan() {
                    &&& final(self)@ == old(self)@.seen(view, now).queued(now, canvas)
                    &&& state::asked(request) == old(self)@.seen(view, now).next_request(canvas)
                } else {
                    &&& final(self)@ == old(self)@
                    &&& request is None
                }
            }),
    {
        if self.is_in_a_mode() {
            return None;
        }
        let view: ViewState = match (&self.document, self.image_info) {
            (Some(document), Some(info)) => {
                if document.view.zoom.less_or_equal(Scalar { bits: constants::ZERO }) {
                    return None;
                }
                let zoom: Scalar = document.view.zoom.max(Scalar { bits: constants::HUNDREDTH });
                let (width, height): (u64, u64) = document.output_dimensions(
                    info.width,
                    info.height,
                    angle,
                );
                ViewState {
                    zoom: document.view.zoom,
                    center_x: drag_centre(
                        document.view.center_x,
                        delta_x,
                        scale_factor,
                        width,
                        zoom,
                    ),
                    center_y: drag_centre(
                        document.view.center_y,
                        delta_y,
                        scale_factor,
                        height,
                        zoom,
                    ),
                }
            },
            _ => {
                return None;
            },
        };
        if let Some(mut document) = self.document.take() {
            document.view = view;
            self.document = Some(document);
        }
        self.changed_at = Some(now);
        self.queue_preview(now, canvas)
    }
}

} // verus!
