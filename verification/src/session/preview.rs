//! Which previews are asked for, and what their arrival changes.

use vstd::prelude::*;

use crate::document::list;
use crate::document::operation::{Kind, Operation};
use crate::document::project::ProjectDocument;
use crate::document::turn_laws;
use crate::document::values::ViewState;
use crate::number::laws;
use crate::number::scalar::Scalar;
use crate::render::contracts::{PreviewRequest, Viewport};
use crate::render::geometry;
use crate::session::motion_laws;
use crate::session::state;
use crate::session::state::{
    KeyView, OriginalPreviewKey, RequestView, Session, SessionView,
};

verus! {

/// The least extent of a canvas that is drawn on.
pub const MIN_CANVAS_SIZE: u32 = 64;

/// The largest extent that is rendered.
pub const MAX_CANVAS_SIZE: u32 = 4096;

/// How long a preview may take before the user is told that it is awaited.
pub const PROCESSING_INDICATOR_DELAY: u64 = 180;

/// The generations of the original lie apart from the others by this much.
pub const ORIGINAL_GENERATIONS: u64 = 0x8000_0000_0000_0000;

/// Whether an operation moves or cuts the photo.
pub open spec fn is_geometry(operation: Operation) -> bool {
    operation is Rotate || operation is Straighten || operation is Crop
}

/// The operations that move or cut the photo.
pub open spec fn geometry_only(operations: Seq<Operation>) -> Seq<Operation> {
    operations.filter(|operation: Operation| is_geometry(operation))
}

/// The operations other than crops.
pub open spec fn without_crop(operations: Seq<Operation>) -> Seq<Operation> {
    operations.filter(|operation: Operation| !(operation is Crop))
}

/// The operations that the original is shown with beside the edited photo, so
/// that both show the same part.
pub fn original_comparison_operations(operations: &Vec<Operation>) -> (result: Vec<Operation>)
    ensures
        result@ == geometry_only(operations@),
{
    let mut result: Vec<Operation> = Vec::new();
    let ghost keep = |operation: Operation| is_geometry(operation);
    let mut i: usize = 0;
    assert(operations@.take(0).filter(keep) =~= Seq::empty()) by {
        reveal(Seq::filter);
    }
    while i < operations.len()
        invariant
            i <= operations.len(),
            keep == (|operation: Operation| is_geometry(operation)),
            result@ == operations@.take(i as int).filter(keep),
        decreases operations.len() - i,
    {
        proof {
            assert(operations@.take(i + 1).drop_last() =~= operations@.take(i as int));
            reveal(Seq::filter);
        }
        let kind: Kind = operations[i].which();
        if kind == Kind::Rotate || kind == Kind::Straighten || kind == Kind::Crop {
            result.push(operations[i]);
        }
        i += 1;
    }
    assert(operations@.take(i as int) =~= operations@);
    result
}

/// The operations other than crops.
fn leave_out_crop(operations: &Vec<Operation>) -> (result: Vec<Operation>)
    ensures
        result@ == without_crop(operations@),
{
    let mut result: Vec<Operation> = Vec::new();
    let ghost keep = |operation: Operation| !(operation is Crop);
    let mut i: usize = 0;
    assert(operations@.take(0).filter(keep) =~= Seq::empty()) by {
        reveal(Seq::filter);
    }
    while i < operations.len()
        invariant
            i <= operations.len(),
            keep == (|operation: Operation| !(operation is Crop)),
            result@ == operations@.take(i as int).filter(keep),
        decreases operations.len() - i,
    {
        proof {
            assert(operations@.take(i + 1).drop_last() =~= operations@.take(i as int));
            reveal(Seq::filter);
        }
        let kind: Kind = operations[i].which();
        if kind != Kind::Crop {
            result.push(operations[i]);
        }
        i += 1;
    }
    assert(operations@.take(i as int) =~= operations@);
    result
}

/// An extent of the canvas in pixels, from its logical extent.
pub open spec fn canvas_extent(logical: i32, scale_factor: Scalar) -> int {
    geometry::min(
        Scalar::integer(geometry::max(logical as int, 0)).product(scale_factor).nearest_within(
            0,
            u32::MAX as int,
        ),
        MAX_CANVAS_SIZE as int,
    )
}

/// The size of the canvas in pixels, from its logical size.
pub fn canvas_size(width: i32, height: i32, scale_factor: Scalar) -> (size: (u32, u32))
    ensures
        size.0 == canvas_extent(width, scale_factor),
        size.1 == canvas_extent(height, scale_factor),
        scale_factor.finite() && 0 <= laws::exact(scale_factor) <= 64 * turn_laws::whole() ==> {
            &&& motion_laws::is_canvas_extent(size.0 as int, width as int, scale_factor)
            &&& motion_laws::is_canvas_extent(size.1 as int, height as int, scale_factor)
        },
{
    proof {
        if scale_factor.finite() && 0 <= laws::exact(scale_factor) <= 64 * turn_laws::whole() {
            motion_laws::a_canvas_goes_with_the_scale_factor(width, scale_factor);
            motion_laws::a_canvas_goes_with_the_scale_factor(height, scale_factor);
        }
    }
    let logical_width: i64 = if width > 0 {
        width as i64
    } else {
        0
    };
    let logical_height: i64 = if height > 0 {
        height as i64
    } else {
        0
    };
    let across: u32 = Scalar::from_integer(logical_width).times(scale_factor).round_to_u32();
    let down: u32 = Scalar::from_integer(logical_height).times(scale_factor).round_to_u32();
    (
        if across < MAX_CANVAS_SIZE {
            across
        } else {
            MAX_CANVAS_SIZE
        },
        if down < MAX_CANVAS_SIZE {
            down
        } else {
            MAX_CANVAS_SIZE
        },
    )
}

/// Whether a canvas is large enough to draw on.
pub open spec fn can_draw(canvas: (u32, u32)) -> bool {
    canvas.0 >= MIN_CANVAS_SIZE && canvas.1 >= MIN_CANVAS_SIZE
}

/// The width of one of the two photos that are shown beside each other.
pub open spec fn panel_width(canvas: (u32, u32)) -> u32 {
    if canvas.0 / 2 >= MIN_CANVAS_SIZE {
        canvas.0 / 2
    } else {
        MIN_CANVAS_SIZE
    }
}

/// The generation of the original that belongs to one of the edited photo.
pub open spec fn original_of(generation: u64) -> u64 {
    if generation < ORIGINAL_GENERATIONS {
        (generation + ORIGINAL_GENERATIONS) as u64
    } else {
        (generation - ORIGINAL_GENERATIONS) as u64
    }
}

/// The generation after another.
pub open spec fn next_generation(generation: u64) -> u64 {
    if generation == u64::MAX {
        0
    } else {
        (generation + 1) as u64
    }
}

/// A viewport on a photo as a document shows it.
pub open spec fn viewport_of(view: ViewState, width: u32, height: u32) -> Viewport {
    Viewport {
        output_width: width,
        output_height: height,
        zoom: view.zoom,
        center_x: view.center_x,
        center_y: view.center_y,
    }
}

impl SessionView {
    /// Whether there is something to render and a place for it.
    pub open spec fn renders(self, canvas: (u32, u32)) -> bool {
        self.document is Some && can_draw(canvas)
    }

    /// What is shown: the photo without its crop while that is being changed.
    pub open spec fn shown_operations(self) -> Seq<Operation> {
        if self.crops() {
            without_crop(self.document->0.operations)
        } else {
            self.document->0.operations
        }
    }

    /// How it is shown: fitted while the crop is being changed.
    pub open spec fn shown_viewport(self, canvas: (u32, u32)) -> Viewport {
        let width = if self.show_original {
            panel_width(canvas)
        } else {
            canvas.0
        };
        viewport_of(
            if self.crops() {
                ViewState::initial()
            } else {
                self.document->0.view
            },
            width,
            canvas.1,
        )
    }

    /// The request for the next preview.
    pub open spec fn next_request(self, canvas: (u32, u32)) -> Option<RequestView> {
        if self.renders(canvas) {
            Some(
                RequestView {
                    generation: next_generation(self.generation),
                    source_path: self.document->0.source.path@,
                    operations: self.shown_operations(),
                    viewport: self.shown_viewport(canvas),
                },
            )
        } else {
            None
        }
    }

    /// What the original beside the photo is to be rendered from.
    pub open spec fn wanted_original(self, viewport: Viewport) -> KeyView {
        KeyView {
            source_path: self.document->0.source.path@,
            operations: geometry_only(self.document->0.operations),
            viewport,
        }
    }

    /// Whether the original at hand was rendered from a key.
    pub open spec fn has_original(self, key: KeyView) -> bool {
        match self.original_preview_key {
            Some(kept) => kept.same(key),
            None => false,
        }
    }

    /// The session after the next preview has been asked for.
    pub open spec fn queued(self, now: u64, canvas: (u32, u32)) -> SessionView {
        if self.renders(canvas) {
            SessionView {
                last_canvas_size: canvas,
                generation: next_generation(self.generation),
                newest_generation: next_generation(self.generation),
                render_requested_at: Some(now),
                original_preview_pending: self.original_preview_pending || (self.show_original
                    && !self.has_original(self.wanted_original(self.shown_viewport(canvas)))),
                ..self
            }
        } else {
            self
        }
    }

    /// The key of the original that is to be asked for.
    pub open spec fn original_key(self, canvas: (u32, u32)) -> KeyView {
        self.wanted_original(
            viewport_of(self.document->0.view, panel_width(canvas), canvas.1),
        )
    }

    /// Whether the original is to be asked for: it is not at hand.
    pub open spec fn asks_for_original(self, canvas: (u32, u32)) -> bool {
        self.renders(canvas) && !self.has_original(self.original_key(canvas))
    }

    /// The request for the original.
    pub open spec fn original_request(self, canvas: (u32, u32)) -> Option<RequestView> {
        if self.asks_for_original(canvas) {
            let key = self.original_key(canvas);
            Some(
                RequestView {
                    generation: original_of(self.generation),
                    source_path: key.source_path,
                    operations: key.operations,
                    viewport: key.viewport,
                },
            )
        } else {
            None
        }
    }

    /// The session after the original has been asked for.
    pub open spec fn original_queued(self, canvas: (u32, u32)) -> SessionView {
        if self.asks_for_original(canvas) {
            SessionView {
                original_generation: original_of(self.generation),
                original_request_key: Some(self.original_key(canvas)),
                ..self
            }
        } else {
            self
        }
    }

    /// The session with the original shown beside the photo, or no longer.
    pub open spec fn toggled(self) -> SessionView {
        if self.show_original {
            SessionView {
                show_original: false,
                original_preview_pending: false,
                original_generation: u64::MAX,
                original_preview_key: None,
                original_request_key: None,
                ..self
            }
        } else {
            SessionView { show_original: true, original_preview_pending: true, ..self }
        }
    }

    /// The session after the newest preview has arrived.
    pub open spec fn shown(self, effective_zoom: Scalar) -> SessionView {
        SessionView {
            render_requested_at: None,
            effective_zoom,
            original_preview_pending: false,
            ..self
        }
    }

    /// The session after a preview of a generation has arrived.
    pub open spec fn arrived(
        self,
        generation: u64,
        effective_zoom: Scalar,
        canvas: (u32, u32),
    ) -> SessionView {
        if generation == self.original_generation {
            SessionView {
                original_preview_key: self.original_request_key,
                original_request_key: None,
                ..self
            }
        } else if generation == self.newest_generation {
            if self.original_preview_pending {
                self.shown(effective_zoom).original_queued(canvas)
            } else {
                self.shown(effective_zoom)
            }
        } else {
            self
        }
    }

    /// Where a preview of a generation belongs.
    pub open spec fn place_of(self, generation: u64) -> Place {
        if generation == self.original_generation {
            Place::Original
        } else if generation == self.newest_generation {
            Place::Photo
        } else {
            Place::Nowhere
        }
    }

    /// Whether the user is to be told that a preview is awaited.
    pub open spec fn is_slow(self, now: u64) -> bool {
        &&& self.render_requested_at matches Some(started)
        &&& now - started >= PROCESSING_INDICATOR_DELAY
    }
}

/// Where a preview belongs. One that a newer request has overtaken belongs
/// nowhere.
#[derive(Clone, Copy, Debug, PartialEq, Eq, Structural)]
pub enum Place {
    Original,
    Photo,
    Nowhere,
}

proof fn lemma_original_of(generation: u64)
    ensures
        generation ^ 0x8000_0000_0000_0000u64 == original_of(generation),
{
    assert(generation < 0x8000_0000_0000_0000u64 ==> generation ^ 0x8000_0000_0000_0000u64
        == generation + 0x8000_0000_0000_0000u64) by (bit_vector);
    assert(generation >= 0x8000_0000_0000_0000u64 ==> generation ^ 0x8000_0000_0000_0000u64
        == generation - 0x8000_0000_0000_0000u64) by (bit_vector);
}

impl Session {
    /// Whether the original at hand was rendered from a key.
    fn holds_original(&self, key: &OriginalPreviewKey) -> (result: bool)
        ensures
            result == self@.has_original(key@),
    {
        match &self.original_preview_key {
            Some(kept) => kept.equals(key),
            None => false,
        }
    }

    /// The document's part in `queue_preview`: the request and the key of the
    /// original that belongs beside it.
    fn make_request(&self, document: &ProjectDocument, generation: u64, canvas: (u32, u32)) -> (made:
        (PreviewRequest, OriginalPreviewKey))
        requires
            can_draw(canvas),
            self@.document == Some(document@),
        ensures
            made.0@ == (RequestView {
                generation,
                source_path: document.source.path@,
                operations: self@.shown_operations(),
                viewport: self@.shown_viewport(canvas),
            }),
            made.1@ == self@.wanted_original(self@.shown_viewport(canvas)),
    {
        let width: u32 = if self.show_original {
            if canvas.0 / 2 >= MIN_CANVAS_SIZE {
                canvas.0 / 2
            } else {
                MIN_CANVAS_SIZE
            }
        } else {
            canvas.0
        };
        let crop_mode: bool = self.crop_edit_start.is_some();
        let view: ViewState = if crop_mode {
            ViewState::default()
        } else {
            document.view
        };
        let viewport = Viewport {
            output_width: width,
            output_height: canvas.1,
            zoom: view.zoom,
            center_x: view.center_x,
            center_y: view.center_y,
        };
        let operations: Vec<Operation> = if crop_mode {
            leave_out_crop(&document.operations)
        } else {
            list::copied(&document.operations)
        };
        (
            PreviewRequest {
                generation,
                source_path: document.source.path.clone(),
                operations,
                viewport,
            },
            OriginalPreviewKey {
                source_path: document.source.path.clone(),
                operations: original_comparison_operations(&document.operations),
                viewport,
            },
        )
    }

    /// Asks for a preview of the document as it is.
    pub fn queue_preview(&mut self, now: u64, canvas: (u32, u32)) -> (request: Option<
        PreviewRequest,
    >)
        ensures
            final(self)@ == old(self)@.queued(now, canvas),
            state::asked(request) == old(self)@.next_request(canvas),
    {
        if canvas.0 < MIN_CANVAS_SIZE || canvas.1 < MIN_CANVAS_SIZE {
            return None;
        }
        let generation: u64 = self.generation.wrapping_add(1);
        let (request, desired) = match &self.document {
            Some(document) => self.make_request(document, generation, canvas),
            None => return None,
        };
        if self.show_original && !self.holds_original(&desired) {
            self.original_preview_pending = true;
        }
        self.last_canvas_size = canvas;
        self.generation = generation;
        self.newest_generation = generation;
        self.render_requested_at = Some(now);
        Some(request)
    }

    /// Asks for the original with only what moves or cuts it, so that it
    /// shows the same part as the edited photo beside it.
    pub fn queue_original_preview(&mut self, canvas: (u32, u32)) -> (request: Option<PreviewRequest>)
        ensures
            final(self)@ == old(self)@.original_queued(canvas),
            state::asked(request) == old(self)@.original_request(canvas),
    {
        if canvas.0 < MIN_CANVAS_SIZE || canvas.1 < MIN_CANVAS_SIZE {
            return None;
        }
        let key: OriginalPreviewKey = match &self.document {
            Some(document) => OriginalPreviewKey {
                source_path: document.source.path.clone(),
                operations: original_comparison_operations(&document.operations),
                viewport: Viewport {
                    output_width: if canvas.0 / 2 >= MIN_CANVAS_SIZE {
                        canvas.0 / 2
                    } else {
                        MIN_CANVAS_SIZE
                    },
                    output_height: canvas.1,
                    zoom: document.view.zoom,
                    center_x: document.view.center_x,
                    center_y: document.view.center_y,
                },
            },
            None => return None,
        };
        if self.holds_original(&key) {
            return None;
        }
        proof {
            lemma_original_of(self.generation);
        }
        self.original_generation = self.generation ^ 0x8000_0000_0000_0000u64;
        let request = PreviewRequest {
            generation: self.original_generation,
            source_path: key.source_path.clone(),
            operations: list::copied(&key.operations),
            viewport: key.viewport,
        };
        self.original_request_key = Some(key);
        Some(request)
    }

    /// Shows the original beside the photo, or no longer.
    pub fn toggle_original(&mut self, now: u64, canvas: (u32, u32)) -> (request: Option<
        PreviewRequest,
    >)
        ensures
            old(self)@.document is None || old(self)@.in_a_mode() ==> final(self)@ == old(self)@
                && request is None,
            old(self)@.document is Some && !old(self)@.in_a_mode() ==> {
                &&& final(self)@ == old(self)@.toggled().queued(now, canvas)
                &&& state::asked(request) == old(self)@.toggled().next_request(canvas)
            },
    {
        if self.document.is_none() || self.is_in_a_mode() {
            return None;
        }
        self.show_original = !self.show_original;
        if self.show_original {
            self.original_preview_pending = true;
        } else {
            self.original_preview_pending = false;
            self.original_generation = u64::MAX;
            self.original_preview_key = None;
            self.original_request_key = None;
        }
        self.queue_preview(now, canvas)
    }

    /// Takes notice of a rendered preview: says where it belongs, and asks
    /// for the original where that waited for it.
    pub fn preview_ready(&mut self, generation: u64, effective_zoom: Scalar, canvas: (u32, u32)) -> (
    result: (Place, Option<PreviewRequest>))
        ensures
            result.0 == old(self)@.place_of(generation),
            final(self)@ == old(self)@.arrived(generation, effective_zoom, canvas),
            state::asked(result.1) == if result.0 == Place::Photo
                && old(self)@.original_preview_pending {
                old(self)@.shown(effective_zoom).original_request(canvas)
            } else {
                None
            },
    {
        if generation == self.original_generation {
            self.original_preview_key = self.original_request_key.take();
            (Place::Original, None)
        } else if generation == self.newest_generation {
            self.render_requested_at = None;
            self.effective_zoom = effective_zoom;
            if self.original_preview_pending {
                self.original_preview_pending = false;
                let request: Option<PreviewRequest> = self.queue_original_preview(canvas);
                (Place::Photo, request)
            } else {
                (Place::Photo, None)
            }
        } else {
            (Place::Nowhere, None)
        }
    }

    /// Takes notice of a preview that could not be rendered.
    pub fn preview_failed(&mut self)
        ensures
            final(self)@ == (SessionView { render_requested_at: None, ..old(self)@ }),
    {
        self.render_requested_at = None;
    }

    /// Whether the user is to be told that a preview is awaited.
    pub fn is_awaiting(&self, now: u64) -> (result: bool)
        ensures
            result == self@.is_slow(now),
    {
        match self.render_requested_at {
            Some(started) => now >= started && now - started >= PROCESSING_INDICATOR_DELAY,
            None => false,
        }
    }
}

} // verus!
