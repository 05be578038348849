//! Opening photos and projects.

use vstd::prelude::*;

use crate::document::operation::Operation;
use crate::document::project::{DocumentView, ProjectDocument};
use crate::document::values::{SourceFingerprint, SourceReference, ViewState};
use crate::number::constants;
use crate::number::scalar::Scalar;
use crate::render::contracts::{ImageInfo, PreviewRequest};
use crate::session::crop;
use crate::session::crop::Autosave;
use crate::session::input;
use crate::session::state;
use crate::session::state::{EditStarts, PendingOpen, PendingView, Session, SessionView};
use crate::storage::fingerprint;
use crate::storage::fingerprint::{inspect_source, SourceStatus};
use crate::storage::paths;
use crate::text;

verus! {

/// What is to be done to open a file.
#[derive(Clone, Copy, Debug, PartialEq, Eq, Structural)]
pub enum Opening {
    /// The file is a project, and is to be read.
    ReadProject,
    /// The file is a photo, and the engine is to look at it.
    InspectPhoto,
}

/// How a document was opened.
#[derive(Clone, Copy, Debug, PartialEq, Eq, Structural)]
pub enum Opened {
    NewDocument,
    Project,
    ChangedSource,
    MissingSource,
}

impl Opened {
    pub open spec fn words(self) -> Seq<char> {
        match self {
            Opened::NewDocument => "New non-destructive document"@,
            Opened::Project => "Project opened"@,
            Opened::ChangedSource => "The source photo changed; using the new version"@,
            Opened::MissingSource => "Source photo was not found"@,
        }
    }

    /// Says in words how the document was opened.
    pub fn message(self) -> (words: String)
        ensures
            words@ == self.words(),
    {
        match self {
            Opened::NewDocument => text::copied("New non-destructive document"),
            Opened::Project => text::copied("Project opened"),
            Opened::ChangedSource => text::copied(
                "The source photo changed; using the new version",
            ),
            Opened::MissingSource => text::copied("Source photo was not found"),
        }
    }
}

/// The photo that is looked at for what is being opened.
pub open spec fn awaited_photo(pending: PendingView) -> Seq<char> {
    match pending {
        PendingView::Image(path) => path,
        PendingView::Project { document, .. } => document.source.path@,
    }
}

/// A fraction from zero to one.
pub open spec fn unit(number: Scalar) -> Scalar {
    number.clamped(Scalar { bits: constants::ZERO }, Scalar { bits: constants::ONE })
}

/// A document with its view centred inside the photo.
pub open spec fn centred_inside(document: DocumentView) -> DocumentView {
    DocumentView {
        view: ViewState {
            zoom: document.view.zoom,
            center_x: unit(document.view.center_x),
            center_y: unit(document.view.center_y),
        },
        ..document
    }
}

/// What is opened: the untouched photo, or the project. `found` is the
/// fingerprint of the photo as it is.
pub open spec fn opened_document(
    pending: PendingOpen,
    found: Option<SourceFingerprint>,
) -> DocumentView {
    match pending {
        PendingOpen::Image(path) => DocumentView::fresh(
            SourceReference { path, fingerprint: found->0 },
        ),
        PendingOpen::Project { document, .. } => match found {
            Some(actual) => if fingerprint::same_fingerprint(actual, document.source.fingerprint) {
                document@
            } else {
                DocumentView {
                    source: SourceReference { path: document.source.path, fingerprint: actual },
                    ..document@
                }
            },
            None => document@,
        },
    }
}

/// How it is opened.
pub open spec fn opened_how(pending: PendingOpen, found: Option<SourceFingerprint>) -> Opened {
    match pending {
        PendingOpen::Image(_) => Opened::NewDocument,
        PendingOpen::Project { document, .. } => match found {
            Some(actual) => if fingerprint::same_fingerprint(actual, document.source.fingerprint) {
                Opened::Project
            } else {
                Opened::ChangedSource
            },
            None => Opened::MissingSource,
        },
    }
}

/// The project file that is opened, if it is one.
pub open spec fn opened_path(pending: PendingOpen) -> Option<Seq<char>> {
    match pending {
        PendingOpen::Image(_) => None,
        PendingOpen::Project { path, .. } => paths::text_of(path),
    }
}

impl SessionView {
    /// The session with what was being changed given up.
    pub open spec fn modes_left(self) -> SessionView {
        let uncropped = if self.crops() && self.document is Some {
            self.crop_left().crop_tried(self.crop_edit_start->0)
        } else {
            self.crop_left()
        };
        let curve = Operation::ToneCurve { curve: self.curve_edit_start->0 };
        let left = SessionView { curve_edit_start: None, ..uncropped };
        if self.curves() && self.document is Some && curve.valid() {
            left.holding(left.document->0.set(curve))
        } else {
            left
        }
    }

    /// The session with another document open, before the preview is asked
    /// for.
    pub open spec fn opened(
        self,
        document: DocumentView,
        path: Option<Seq<char>>,
        info: ImageInfo,
    ) -> SessionView {
        SessionView {
            document: Some(centred_inside(document)),
            project_path: path,
            image_info: Some(info),
            starts: EditStarts::nothing(),
            crop_edit_start: None,
            crop_saved_view: None,
            crop_aspect_ratio: None,
            curve_edit_start: None,
            last_canvas_size: (0, 0),
            changed_at: None,
            show_original: false,
            original_generation: u64::MAX,
            original_preview_pending: false,
            original_preview_key: None,
            original_request_key: None,
            ..self
        }
    }
}

impl Session {
    /// Begins to open a file. What was being changed is given up, and what is
    /// not saved yet is saved.
    pub fn begin_open(&mut self, path: &str) -> (result: (Option<Autosave>, Opening))
        ensures
            result.1 == if input::ends_in(path@, "focusless"@) {
                Opening::ReadProject
            } else {
                Opening::InspectPhoto
            },
            crop::saved(result.0) == old(self)@.modes_left().to_save(),
            final(self)@ == if result.1 == Opening::ReadProject {
                old(self)@.modes_left()
            } else {
                SessionView {
                    pending_open: Some(PendingView::Image(path@)),
                    ..old(self)@.modes_left()
                }
            },
    {
        let crop_start = self.crop_edit_start.take();
        let curve_start = self.curve_edit_start.take();
        if let Some(mut document) = self.document.take() {
            if let Some(original) = crop_start {
                let _ = document.preview_crop(original);
            }
            if let Some(original) = curve_start {
                let _ = document.preview_tone_curve(original);
            }
            self.document = Some(document);
        }
        self.crop_saved_view = None;
        self.crop_aspect_ratio = None;
        let autosave: Option<Autosave> = self.flush_autosave();
        if input::has_extension(path, "focusless") {
            (autosave, Opening::ReadProject)
        } else {
            self.pending_open = Some(PendingOpen::Image(text::copied(path)));
            (autosave, Opening::InspectPhoto)
        }
    }

    /// Goes on with a project that was read. `replacement` is where the photo
    /// is, if it is not at its place. Says which photo the engine is to look
    /// at. A recovered project is no project file.
    pub fn project_read(
        &mut self,
        path: String,
        document: ProjectDocument,
        replacement: Option<String>,
    ) -> (photo: String)
        ensures
            photo@ == match replacement {
                Some(found) => found@,
                None => document@.source.path@,
            },
            final(self)@.pending_open matches Some(PendingView::Project {
                path: project,
                document: pending,
            }) && {
                &&& project == if paths::same_path(path@, old(self)@.recovery_path) {
                    None
                } else {
                    Some(path@)
                }
                &&& pending.source.path@ == photo@
                &&& pending == (DocumentView {
                    source: SourceReference {
                        path: pending.source.path,
                        fingerprint: document@.source.fingerprint,
                    },
                    ..document@
                })
            },
            final(self)@ == (SessionView {
                pending_open: final(self)@.pending_open,
                ..old(self)@
            }),
    {
        let mut document: ProjectDocument = document;
        if let Some(found) = replacement {
            document.source.path = found;
        }
        let photo: String = document.source.path.clone();
        let project: Option<String> = if paths::is_same(
            path.as_str(),
            self.recovery_path.as_str(),
        ) {
            None
        } else {
            Some(path)
        };
        self.pending_open = Some(PendingOpen::Project { path: project, document });
        photo
    }

    /// Takes what is being opened, once the engine has looked at a photo. It
    /// is given up where that is another photo.
    pub fn take_pending(&mut self, inspected: &str) -> (pending: Option<PendingOpen>)
        ensures
            final(self)@ == (SessionView { pending_open: None, ..old(self)@ }),
            state::awaited(pending) == match old(self)@.pending_open {
                Some(awaited) => if paths::same_path(awaited_photo(awaited), inspected@) {
                    Some(awaited)
                } else {
                    None
                },
                None => None,
            },
    {
        match self.pending_open.take() {
            Some(PendingOpen::Image(path)) => {
                if paths::is_same(path.as_str(), inspected) {
                    Some(PendingOpen::Image(path))
                } else {
                    None
                }
            },
            Some(PendingOpen::Project { path, document }) => {
                if paths::is_same(document.source.path.as_str(), inspected) {
                    Some(PendingOpen::Project { path, document })
                } else {
                    None
                }
            },
            None => None,
        }
    }

    /// Opens what was being opened. `found` is the fingerprint of the photo as
    /// it is; only a project can be opened without one.
    pub fn finish_open(
        &mut self,
        pending: PendingOpen,
        info: ImageInfo,
        found: Option<SourceFingerprint>,
        now: u64,
        canvas: (u32, u32),
    ) -> (result: (Opened, Option<PreviewRequest>))
        requires
            pending is Image ==> found is Some,
        ensures
            result.0 == opened_how(pending, found),
            ({
                let opened = old(self)@.opened(
                    opened_document(pending, found),
                    opened_path(pending),
                    info,
                );
                &&& final(self)@ == opened.queued(now, canvas)
                &&& state::asked(result.1) == opened.next_request(canvas)
            }),
    {
        let ghost before = pending;
        let (mut document, project_path, how): (ProjectDocument, Option<String>, Opened) =
            match pending {
            PendingOpen::Image(path) => {
                let fingerprint: SourceFingerprint = found.unwrap();
                (
                    ProjectDocument::new(SourceReference { path, fingerprint }),
                    None,
                    Opened::NewDocument,
                )
            },
            PendingOpen::Project { path, mut document } => {
                let how: Opened = match inspect_source(&document.source, found) {
                    SourceStatus::Current => Opened::Project,
                    SourceStatus::Changed { expected: _, actual } => {
                        document.source.fingerprint = actual;
                        Opened::ChangedSource
                    },
                    SourceStatus::Missing => Opened::MissingSource,
                };
                (document, path, how)
            },
        };
        assert(document@ == opened_document(before, found));
        let zero: Scalar = Scalar { bits: constants::ZERO };
        let one: Scalar = Scalar { bits: constants::ONE };
        document.view.center_x = document.view.center_x.clamp(zero, one);
        document.view.center_y = document.view.center_y.clamp(zero, one);
        self.document = Some(document);
        self.project_path = project_path;
        self.image_info = Some(info);
        self.starts = EditStarts::none();
        self.crop_edit_start = None;
        self.crop_saved_view = None;
        self.crop_aspect_ratio = None;
        self.curve_edit_start = None;
        self.last_canvas_size = (0, 0);
        self.changed_at = None;
        self.show_original = false;
        self.original_generation = u64::MAX;
        self.original_preview_pending = false;
        self.original_preview_key = None;
        self.original_request_key = None;
        (how, self.queue_preview(now, canvas))
    }

    /// The name of the photo that is open.
    pub fn title(&self) -> (name: Option<String>)
        ensures
            paths::text_of(name) == match self@.document {
                Some(document) => match paths::last_part(document.source.path@) {
                    Some(name) => Some(name),
                    None => Some("Photo"@),
                },
                None => None,
            },
    {
        match &self.document {
            Some(document) => match paths::file_name(document.source.path.as_str()) {
                Some(name) => Some(name),
                None => Some(text::copied("Photo")),
            },
            None => None,
        }
    }
}

} // verus!
