//! The state of an editing session.

use vstd::prelude::*;

use crate::document::curve::ToneCurve;
use crate::document::list;
use crate::document::operation::{Kind, Operation};
use crate::document::project::{DocumentView, ProjectDocument};
use crate::document::values::{
    CropRect, FrameColor, ShadowsHighlights, ViewState, WhiteBalance,
};
use crate::number::constants;
use crate::number::scalar::Scalar;
use crate::render::contracts::{ImageInfo, PreviewRequest, Viewport};
use crate::storage::paths;

verus! {

/// What the original of the photo was rendered from for a comparison.
#[derive(Clone, Debug)]
pub struct OriginalPreviewKey {
    pub source_path: String,
    pub operations: Vec<Operation>,
    pub viewport: Viewport,
}

/// The key as the mathematics of it.
pub struct KeyView {
    pub source_path: Seq<char>,
    pub operations: Seq<Operation>,
    pub viewport: Viewport,
}

/// A request for a preview as the mathematics of it.
pub struct RequestView {
    pub generation: u64,
    pub source_path: Seq<char>,
    pub operations: Seq<Operation>,
    pub viewport: Viewport,
}

impl View for OriginalPreviewKey {
    type V = KeyView;

    open spec fn view(&self) -> KeyView {
        KeyView {
            source_path: self.source_path@,
            operations: self.operations@,
            viewport: self.viewport,
        }
    }
}

impl View for PreviewRequest {
    type V = RequestView;

    open spec fn view(&self) -> RequestView {
        RequestView {
            generation: self.generation,
            source_path: self.source_path@,
            operations: self.operations@,
            viewport: self.viewport,
        }
    }
}

/// Whether two viewports show the same.
pub open spec fn same_viewport(a: Viewport, b: Viewport) -> bool {
    &&& a.output_width == b.output_width
    &&& a.output_height == b.output_height
    &&& a.zoom.same(b.zoom)
    &&& a.center_x.same(b.center_x)
    &&& a.center_y.same(b.center_y)
}

impl KeyView {
    /// Whether two keys stand for the same pixels.
    pub open spec fn same(self, other: KeyView) -> bool {
        &&& paths::same_path(self.source_path, other.source_path)
        &&& list::same_operations(self.operations, other.operations)
        &&& same_viewport(self.viewport, other.viewport)
    }
}

impl OriginalPreviewKey {
    /// Whether two keys stand for the same pixels.
    pub fn equals(&self, other: &OriginalPreviewKey) -> (result: bool)
        ensures
            result == self@.same(other@),
    {
        let a: Viewport = self.viewport;
        let b: Viewport = other.viewport;
        paths::is_same(self.source_path.as_str(), other.source_path.as_str()) && list::equal_operations(
            &self.operations,
            &other.operations,
        ) && a.output_width == b.output_width && a.output_height == b.output_height
            && a.zoom.equals(b.zoom) && a.center_x.equals(b.center_x) && a.center_y.equals(
            b.center_y,
        )
    }

    /// A copy of the key.
    pub fn duplicate(&self) -> (copy: OriginalPreviewKey)
        ensures
            copy@ == self@,
    {
        OriginalPreviewKey {
            source_path: self.source_path.clone(),
            operations: list::copied(&self.operations),
            viewport: self.viewport,
        }
    }
}

/// A photo or a project that is being opened, until the engine has looked at
/// the photo.
#[derive(Debug)]
pub enum PendingOpen {
    Image(String),
    Project { path: Option<String>, document: ProjectDocument },
}

/// A photo or a project that is being opened, as the mathematics of it.
pub enum PendingView {
    Image(Seq<char>),
    Project { path: Option<Seq<char>>, document: DocumentView },
}

/// The view of an optional document.
pub open spec fn viewed(value: Option<ProjectDocument>) -> Option<DocumentView> {
    match value {
        Some(document) => Some(document@),
        None => None,
    }
}

/// The view of an optional key.
pub open spec fn keyed(value: Option<OriginalPreviewKey>) -> Option<KeyView> {
    match value {
        Some(key) => Some(key@),
        None => None,
    }
}

/// The view of an optional request.
pub open spec fn asked(value: Option<PreviewRequest>) -> Option<RequestView> {
    match value {
        Some(request) => Some(request@),
        None => None,
    }
}

/// The view of what is being opened.
pub open spec fn awaited(value: Option<PendingOpen>) -> Option<PendingView> {
    match value {
        Some(PendingOpen::Image(path)) => Some(PendingView::Image(path@)),
        Some(PendingOpen::Project { path, document }) => Some(
            PendingView::Project { path: paths::text_of(path), document: document@ },
        ),
        None => None,
    }
}

/// What was set when a change began that has not been made for good.
#[derive(Clone, Copy, Debug)]
pub struct EditStarts {
    pub exposure: Option<Scalar>,
    pub contrast: Option<Scalar>,
    pub shadows_highlights: Option<ShadowsHighlights>,
    pub white_balance: Option<WhiteBalance>,
    pub saturation: Option<Scalar>,
    pub sharpness: Option<Scalar>,
    pub vignette: Option<Scalar>,
    pub rotation: Option<Scalar>,
    pub denoise: Option<(Scalar, Scalar)>,
    pub frame: Option<(Scalar, FrameColor)>,
}

impl EditStarts {
    /// No change has begun.
    pub open spec fn nothing() -> EditStarts {
        EditStarts {
            exposure: None,
            contrast: None,
            shadows_highlights: None,
            white_balance: None,
            saturation: None,
            sharpness: None,
            vignette: None,
            rotation: None,
            denoise: None,
            frame: None,
        }
    }

    /// What was set when a change of a kind began.
    pub open spec fn at(self, kind: Kind) -> Option<Operation> {
        match kind {
            Kind::Exposure => match self.exposure {
                Some(ev) => Some(Operation::Exposure { ev }),
                None => None,
            },
            Kind::Contrast => match self.contrast {
                Some(amount) => Some(Operation::Contrast { amount }),
                None => None,
            },
            Kind::ShadowsHighlights => match self.shadows_highlights {
                Some(adjustment) => Some(Operation::ShadowsHighlights { adjustment }),
                None => None,
            },
            Kind::WhiteBalance => match self.white_balance {
                Some(adjustment) => Some(Operation::WhiteBalance { adjustment }),
                None => None,
            },
            Kind::Saturation => match self.saturation {
                Some(amount) => Some(Operation::Saturation { amount }),
                None => None,
            },
            Kind::Sharpness => match self.sharpness {
                Some(amount) => Some(Operation::Sharpness { amount }),
                None => None,
            },
            Kind::Vignette => match self.vignette {
                Some(strength) => Some(Operation::Vignette { strength }),
                None => None,
            },
            Kind::Straighten => match self.rotation {
                Some(degrees) => Some(Operation::Straighten { degrees }),
                None => None,
            },
            Kind::Denoise => match self.denoise {
                Some((luma_denoise, color_denoise)) => Some(
                    Operation::Denoise { luma_denoise, color_denoise },
                ),
                None => None,
            },
            Kind::Frame => match self.frame {
                Some((width_pct, color)) => Some(Operation::Frame { width_pct, color }),
                None => None,
            },
            _ => None,
        }
    }

    /// With a change begun at an operation.
    pub open spec fn with(self, operation: Operation) -> EditStarts {
        match operation {
            Operation::Exposure { ev } => EditStarts { exposure: Some(ev), ..self },
            Operation::Contrast { amount } => EditStarts { contrast: Some(amount), ..self },
            Operation::ShadowsHighlights { adjustment } => EditStarts {
                shadows_highlights: Some(adjustment),
                ..self
            },
            Operation::WhiteBalance { adjustment } => EditStarts {
                white_balance: Some(adjustment),
                ..self
            },
            Operation::Saturation { amount } => EditStarts { saturation: Some(amount), ..self },
            Operation::Sharpness { amount } => EditStarts { sharpness: Some(amount), ..self },
            Operation::Vignette { strength } => EditStarts { vignette: Some(strength), ..self },
            Operation::Straighten { degrees } => EditStarts { rotation: Some(degrees), ..self },
            Operation::Denoise { luma_denoise, color_denoise } => EditStarts {
                denoise: Some((luma_denoise, color_denoise)),
                ..self
            },
            Operation::Frame { width_pct, color } => EditStarts {
                frame: Some((width_pct, color)),
                ..self
            },
            _ => self,
        }
    }

    /// With no change of a kind begun.
    pub open spec fn without(self, kind: Kind) -> EditStarts {
        match kind {
            Kind::Exposure => EditStarts { exposure: None, ..self },
            Kind::Contrast => EditStarts { contrast: None, ..self },
            Kind::ShadowsHighlights => EditStarts { shadows_highlights: None, ..self },
            Kind::WhiteBalance => EditStarts { white_balance: None, ..self },
            Kind::Saturation => EditStarts { saturation: None, ..self },
            Kind::Sharpness => EditStarts { sharpness: None, ..self },
            Kind::Vignette => EditStarts { vignette: None, ..self },
            Kind::Straighten => EditStarts { rotation: None, ..self },
            Kind::Denoise => EditStarts { denoise: None, ..self },
            Kind::Frame => EditStarts { frame: None, ..self },
            _ => self,
        }
    }

    /// No change has begun.
    pub fn none() -> (starts: EditStarts)
        ensures
            starts == EditStarts::nothing(),
    {
        EditStarts {
            exposure: None,
            contrast: None,
            shadows_highlights: None,
            white_balance: None,
            saturation: None,
            sharpness: None,
            vignette: None,
            rotation: None,
            denoise: None,
            frame: None,
        }
    }

    /// What was set when a change of a kind began.
    pub fn get(&self, kind: Kind) -> (operation: Option<Operation>)
        ensures
            operation == self.at(kind),
            operation matches Some(found) ==> found.kind() == kind,
    {
        match kind {
            Kind::Exposure => match self.exposure {
                Some(ev) => Some(Operation::Exposure { ev }),
                None => None,
            },
            Kind::Contrast => match self.contrast {
                Some(amount) => Some(Operation::Contrast { amount }),
                None => None,
            },
            Kind::ShadowsHighlights => match self.shadows_highlights {
                Some(adjustment) => Some(Operation::ShadowsHighlights { adjustment }),
                None => None,
            },
            Kind::WhiteBalance => match self.white_balance {
                Some(adjustment) => Some(Operation::WhiteBalance { adjustment }),
                None => None,
            },
            Kind::Saturation => match self.saturation {
                Some(amount) => Some(Operation::Saturation { amount }),
                None => None,
            },
            Kind::Sharpness => match self.sharpness {
                Some(amount) => Some(Operation::Sharpness { amount }),
                None => None,
            },
            Kind::Vignette => match self.vignette {
                Some(strength) => Some(Operation::Vignette { strength }),
                None => None,
            },
            Kind::Straighten => match self.rotation {
                Some(degrees) => Some(Operation::Straighten { degrees }),
                None => None,
            },
            Kind::Denoise => match self.denoise {
                Some((luma_denoise, color_denoise)) => Some(
                    Operation::Denoise { luma_denoise, color_denoise },
                ),
                None => None,
            },
            Kind::Frame => match self.frame {
                Some((width_pct, color)) => Some(Operation::Frame { width_pct, color }),
                None => None,
            },
            _ => None,
        }
    }

    /// Begins a change at an operation.
    pub fn begin(&mut self, operation: Operation)
        ensures
            *final(self) == old(self).with(operation),
    {
        match operation {
            Operation::Exposure { ev } => self.exposure = Some(ev),
            Operation::Contrast { amount } => self.contrast = Some(amount),
            Operation::ShadowsHighlights { adjustment } => self.shadows_highlights = Some(
                adjustment,
            ),
            Operation::WhiteBalance { adjustment } => self.white_balance = Some(adjustment),
            Operation::Saturation { amount } => self.saturation = Some(amount),
            Operation::Sharpness { amount } => self.sharpness = Some(amount),
            Operation::Vignette { strength } => self.vignette = Some(strength),
            Operation::Straighten { degrees } => self.rotation = Some(degrees),
            Operation::Denoise { luma_denoise, color_denoise } => self.denoise = Some(
                (luma_denoise, color_denoise),
            ),
            Operation::Frame { width_pct, color } => self.frame = Some((width_pct, color)),
            _ => {},
        }
    }

    /// Ends a change of a kind.
    pub fn end(&mut self, kind: Kind)
        ensures
            *final(self) == old(self).without(kind),
    {
        match kind {
            Kind::Exposure => self.exposure = None,
            Kind::Contrast => self.contrast = None,
            Kind::ShadowsHighlights => self.shadows_highlights = None,
            Kind::WhiteBalance => self.white_balance = None,
            Kind::Saturation => self.saturation = None,
            Kind::Sharpness => self.sharpness = None,
            Kind::Vignette => self.vignette = None,
            Kind::Straighten => self.rotation = None,
            Kind::Denoise => self.denoise = None,
            Kind::Frame => self.frame = None,
            _ => {},
        }
    }
}

/// An editing session. Times are in milliseconds from any fixed moment.
#[derive(Debug)]
pub struct Session {
    pub document: Option<ProjectDocument>,
    pub project_path: Option<String>,
    pub pending_open: Option<PendingOpen>,
    pub image_info: Option<ImageInfo>,
    pub recovery_path: String,
    pub generation: u64,
    pub newest_generation: u64,
    pub original_generation: u64,
    pub show_original: bool,
    pub original_preview_pending: bool,
    pub original_preview_key: Option<OriginalPreviewKey>,
    pub original_request_key: Option<OriginalPreviewKey>,
    pub effective_zoom: Scalar,
    pub starts: EditStarts,
    pub crop_edit_start: Option<CropRect>,
    pub crop_saved_view: Option<ViewState>,
    pub crop_aspect_ratio: Option<Scalar>,
    pub curve_edit_start: Option<ToneCurve>,
    pub changed_at: Option<u64>,
    pub last_canvas_size: (u32, u32),
    pub render_requested_at: Option<u64>,
    pub exporting: bool,
}

/// The session as the mathematics of it.
pub struct SessionView {
    pub document: Option<DocumentView>,
    pub project_path: Option<Seq<char>>,
    pub pending_open: Option<PendingView>,
    pub image_info: Option<ImageInfo>,
    pub recovery_path: Seq<char>,
    pub generation: u64,
    pub newest_generation: u64,
    pub original_generation: u64,
    pub show_original: bool,
    pub original_preview_pending: bool,
    pub original_preview_key: Option<KeyView>,
    pub original_request_key: Option<KeyView>,
    pub effective_zoom: Scalar,
    pub starts: EditStarts,
    pub crop_edit_start: Option<CropRect>,
    pub crop_saved_view: Option<ViewState>,
    pub crop_aspect_ratio: Option<Scalar>,
    pub curve_edit_start: Option<ToneCurve>,
    pub changed_at: Option<u64>,
    pub last_canvas_size: (u32, u32),
    pub render_requested_at: Option<u64>,
    pub exporting: bool,
}

impl View for Session {
    type V = SessionView;

    open spec fn view(&self) -> SessionView {
        SessionView {
            document: viewed(self.document),
            project_path: paths::text_of(self.project_path),
            pending_open: awaited(self.pending_open),
            image_info: self.image_info,
            recovery_path: self.recovery_path@,
            generation: self.generation,
            newest_generation: self.newest_generation,
            original_generation: self.original_generation,
            show_original: self.show_original,
            original_preview_pending: self.original_preview_pending,
            original_preview_key: keyed(self.original_preview_key),
            original_request_key: keyed(self.original_request_key),
            effective_zoom: self.effective_zoom,
            starts: self.starts,
            crop_edit_start: self.crop_edit_start,
            crop_saved_view: self.crop_saved_view,
            crop_aspect_ratio: self.crop_aspect_ratio,
            curve_edit_start: self.curve_edit_start,
            changed_at: self.changed_at,
            last_canvas_size: self.last_canvas_size,
            render_requested_at: self.render_requested_at,
            exporting: self.exporting,
        }
    }
}

impl SessionView {
    /// A session with nothing open.
    pub open spec fn empty(recovery_path: Seq<char>) -> SessionView {
        SessionView {
            document: None,
            project_path: None,
            pending_open: None,
            image_info: None,
            recovery_path,
            generation: 0,
            newest_generation: 0,
            original_generation: u64::MAX,
            show_original: false,
            original_preview_pending: false,
            original_preview_key: None,
            original_request_key: None,
            effective_zoom: Scalar { bits: constants::ONE },
            starts: EditStarts::nothing(),
            crop_edit_start: None,
            crop_saved_view: None,
            crop_aspect_ratio: None,
            curve_edit_start: None,
            changed_at: None,
            last_canvas_size: (0, 0),
            render_requested_at: None,
            exporting: false,
        }
    }

    /// Whether the crop is being changed.
    pub open spec fn crops(self) -> bool {
        self.crop_edit_start is Some
    }

    /// Whether the tone curve is being changed.
    pub open spec fn curves(self) -> bool {
        self.curve_edit_start is Some
    }

    /// Whether the crop or the tone curve is being changed.
    pub open spec fn in_a_mode(self) -> bool {
        self.crops() || self.curves()
    }

    /// With another document.
    pub open spec fn holding(self, document: DocumentView) -> SessionView {
        SessionView { document: Some(document), ..self }
    }

    /// With the document changed, so that it is to be saved soon.
    pub open spec fn changed(self, now: u64) -> SessionView {
        SessionView { changed_at: Some(now), ..self }
    }

    /// Whether the newest command can be undone now.
    pub open spec fn can_undo(self) -> bool {
        &&& !self.in_a_mode()
        &&& self.document matches Some(document)
        &&& document.history.undo.len() > 0
    }

    /// Whether the newest undone command can be made again now.
    pub open spec fn can_redo(self) -> bool {
        &&& !self.in_a_mode()
        &&& self.document matches Some(document)
        &&& document.history.redo.len() > 0
    }
}

/// A document's view, with the photo fitted and centred.
pub open spec fn shown_whole(document: DocumentView) -> DocumentView {
    DocumentView { view: ViewState::initial(), ..document }
}

impl Session {
    /// A session with nothing open.
    pub fn new(recovery_path: String) -> (session: Session)
        ensures
            session@ == SessionView::empty(recovery_path@),
    {
        Session {
            document: None,
            project_path: None,
            pending_open: None,
            image_info: None,
            recovery_path,
            generation: 0,
            newest_generation: 0,
            original_generation: u64::MAX,
            show_original: false,
            original_preview_pending: false,
            original_preview_key: None,
            original_request_key: None,
            effective_zoom: Scalar { bits: constants::ONE },
            starts: EditStarts::none(),
            crop_edit_start: None,
            crop_saved_view: None,
            crop_aspect_ratio: None,
            curve_edit_start: None,
            changed_at: None,
            last_canvas_size: (0, 0),
            render_requested_at: None,
            exporting: false,
        }
    }

    /// Whether the crop or the tone curve is being changed.
    pub fn is_in_a_mode(&self) -> (result: bool)
        ensures
            result == self@.in_a_mode(),
    {
        self.crop_edit_start.is_some() || self.curve_edit_start.is_some()
    }

    /// Whether undoing and redoing are offered.
    pub fn offers(&self) -> (result: (bool, bool))
        ensures
            result == (self@.can_undo(), self@.can_redo()),
    {
        if self.is_in_a_mode() {
            return (false, false);
        }
        match &self.document {
            Some(document) => (document.history.can_undo(), document.history.can_redo()),
            None => (false, false),
        }
    }
}

} // verus!
