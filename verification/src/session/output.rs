//! Saving, exporting and copying.

use vstd::prelude::*;

use crate::document::list;
use crate::document::operation::DocumentError;
use crate::document::project::{DocumentView, ProjectDocument};
use crate::render::contracts::{CopyRequest, ExportFormat, ExportRequest, PreviewRequest};
use crate::session::crop;
use crate::session::crop::Autosave;
use crate::session::input;
use crate::session::preview::MIN_CANVAS_SIZE;
use crate::session::state;
use crate::session::state::{RequestView, Session, SessionView};
use crate::storage::paths;
use crate::text;

verus! {

/// How long a change waits until it is saved without being asked.
pub const AUTOSAVE_DELAY: u64 = 500;

/// What is to be done to save or to export.
#[derive(Clone, Debug)]
pub enum Step {
    /// There is nothing to do.
    Nothing,
    /// The change of the crop is to be ended first.
    EndCropFirst,
    /// The user is to be asked for a file. A name is suggested.
    Ask(String),
    /// The file is known.
    To(String),
}

/// A step as the mathematics of it.
pub enum StepView {
    Nothing,
    EndCropFirst,
    Ask(Seq<char>),
    To(Seq<char>),
}

impl View for Step {
    type V = StepView;

    open spec fn view(&self) -> StepView {
        match self {
            Step::Nothing => StepView::Nothing,
            Step::EndCropFirst => StepView::EndCropFirst,
            Step::Ask(name) => StepView::Ask(name@),
            Step::To(path) => StepView::To(path@),
        }
    }
}

/// A project to be saved, where, and which file it was saved to before.
#[derive(Debug)]
pub struct ManualSave {
    pub path: String,
    pub document: ProjectDocument,
    pub previous_project_path: Option<String>,
}

/// A copy for the clipboard, or why there is none.
#[derive(Clone, Debug)]
pub enum CopyStep {
    Nothing,
    EndCropFirst,
    Render(CopyRequest),
}

/// The name of a photo without its extension, or another word.
pub open spec fn stem_or(path: Seq<char>, other: Seq<char>) -> Seq<char> {
    match paths::stem_of(path) {
        Some(stem) => stem,
        None => other,
    }
}

fn find_stem(path: &str, other: &str) -> (stem: String)
    ensures
        stem@ == stem_or(path@, other@),
{
    match paths::file_stem(path) {
        Some(stem) => stem,
        None => text::copied(other),
    }
}

/// The file that is exported to: a JPEG file where nothing else is said.
pub open spec fn export_destination(path: Seq<char>) -> Seq<char> {
    if paths::extension_of(path) is None {
        paths::with_other_extension(path, "jpg"@)
    } else {
        path
    }
}

impl SessionView {
    /// What is to be done to save the project.
    pub open spec fn save_step(self, force_dialog: bool) -> StepView {
        if self.crops() {
            StepView::EndCropFirst
        } else {
            match (self.document, self.project_path) {
                (None, _) => StepView::Nothing,
                (Some(document), Some(path)) => if force_dialog {
                    StepView::Ask(stem_or(document.source.path@, "edit"@) + ".focusless"@)
                } else {
                    StepView::To(path)
                },
                (Some(document), None) => StepView::Ask(
                    stem_or(document.source.path@, "edit"@) + ".focusless"@,
                ),
            }
        }
    }

    /// The session with the project being saved to a file.
    pub open spec fn saving(self, path: Seq<char>) -> SessionView {
        SessionView { project_path: Some(path), changed_at: None, ..self }
    }

    /// The session after the project could not be saved to a file.
    pub open spec fn not_saved(self, path: Seq<char>, previous: Option<Seq<char>>) -> SessionView {
        match self.project_path {
            Some(current) => if paths::same_path(current, path) {
                SessionView { project_path: previous, ..self }
            } else {
                self
            },
            None => self,
        }
    }

    /// What is to be done to export the photo.
    pub open spec fn export_step(self) -> StepView {
        if self.exporting {
            StepView::Nothing
        } else if self.crops() {
            StepView::EndCropFirst
        } else {
            match self.document {
                None => StepView::Nothing,
                Some(document) => StepView::Ask(
                    stem_or(document.source.path@, "photo"@) + "-edited.jpg"@,
                ),
            }
        }
    }

    /// Whether a change has waited long enough to be saved.
    pub open spec fn save_is_due(self, now: u64) -> bool {
        &&& self.changed_at matches Some(changed)
        &&& now - changed >= AUTOSAVE_DELAY
    }

    /// Whether the canvas has another size than at the last preview.
    pub open spec fn is_resized(self, canvas: (u32, u32)) -> bool {
        self.renders(canvas) && canvas != self.last_canvas_size
    }

    /// The session with the original to be rendered again as well, if it is
    /// shown.
    pub open spec fn resizing(self) -> SessionView {
        SessionView {
            original_preview_pending: self.original_preview_pending || self.show_original,
            ..self
        }
    }

    /// The session after a look at the canvas.
    pub open spec fn fitted(self, now: u64, canvas: (u32, u32)) -> SessionView {
        if self.is_resized(canvas) {
            self.resizing().queued(now, canvas)
        } else {
            self
        }
    }
}

/// What is to be done regularly.
#[derive(Debug)]
pub struct Tick {
    pub preview: Option<PreviewRequest>,
    pub autosave: Option<Autosave>,
}

impl Session {
    /// Begins to save the project. A change of the tone curve is ended first.
    pub fn begin_save(&mut self, force_dialog: bool, now: u64) -> (result: (
        Step,
        Result<bool, DocumentError>,
    ))
        ensures
            result.0@ == old(self)@.save_step(force_dialog),
            final(self)@ == if old(self)@.crops() {
                old(self)@
            } else {
                old(self)@.curve_finished(now)
            },
            result.1 == match old(self)@.curve_error() {
                Some(error) => if old(self)@.crops() {
                    Ok::<bool, DocumentError>(false)
                } else {
                    Err::<bool, DocumentError>(error)
                },
                None => Ok::<bool, DocumentError>(
                    !old(self)@.crops() && old(self)@.curve_is_changed(),
                ),
            },
    {
        if self.crop_edit_start.is_some() {
            return (Step::EndCropFirst, Ok(false));
        }
        let finished: Result<bool, DocumentError> = self.finish_curve(now);
        let step: Step = match (&self.document, &self.project_path) {
            (Some(document), Some(path)) => {
                if force_dialog {
                    Step::Ask(
                        text::joined(
                            find_stem(document.source.path.as_str(), "edit").as_str(),
                            ".focusless",
                        ),
                    )
                } else {
                    Step::To(path.clone())
                }
            },
            (Some(document), None) => Step::Ask(
                text::joined(
                    find_stem(document.source.path.as_str(), "edit").as_str(),
                    ".focusless",
                ),
            ),
            (None, _) => Step::Nothing,
        };
        (step, finished)
    }

    /// Saves the project to a file, which is its file from then on.
    pub fn save_to(&mut self, path: &str) -> (save: Option<ManualSave>)
        ensures
            match old(self)@.document {
                Some(document) => {
                    &&& save matches Some(order)
                    &&& order.path@ == path@
                    &&& order.document@ == document
                    &&& paths::text_of(order.previous_project_path) == old(self)@.project_path
                    &&& final(self)@ == old(self)@.saving(path@)
                },
                None => save is None && final(self)@ == old(self)@,
            },
    {
        let document: ProjectDocument = match &self.document {
            Some(document) => document.duplicate(),
            None => return None,
        };
        let previous_project_path: Option<String> = self.project_path.take();
        self.project_path = Some(text::copied(path));
        self.changed_at = None;
        Some(ManualSave { path: text::copied(path), document, previous_project_path })
    }

    /// Takes notice of a project that could not be saved: the file that it was
    /// saved to before is its file again.
    pub fn save_failed(&mut self, path: &str, previous_project_path: Option<String>)
        ensures
            final(self)@ == old(self)@.not_saved(path@, paths::text_of(previous_project_path)),
    {
        let concerned: bool = match &self.project_path {
            Some(current) => paths::is_same(current.as_str(), path),
            None => false,
        };
        if concerned {
            self.project_path = previous_project_path;
        }
    }

    /// Begins to export the photo. A change of the tone curve is ended first.
    pub fn begin_export(&mut self, now: u64) -> (result: (Step, Result<bool, DocumentError>))
        ensures
            result.0@ == old(self)@.export_step(),
            final(self)@ == if old(self)@.exporting {
                old(self)@
            } else {
                old(self)@.curve_finished(now)
            },
            result.1 == if old(self)@.exporting {
                Ok::<bool, DocumentError>(false)
            } else {
                match old(self)@.curve_error() {
                    Some(error) => Err::<bool, DocumentError>(error),
                    None => Ok::<bool, DocumentError>(old(self)@.curve_is_changed()),
                }
            },
    {
        if self.exporting {
            return (Step::Nothing, Ok(false));
        }
        let finished: Result<bool, DocumentError> = self.finish_curve(now);
        if self.crop_edit_start.is_some() {
            return (Step::EndCropFirst, finished);
        }
        let step: Step = match &self.document {
            Some(document) => Step::Ask(
                text::joined(
                    find_stem(document.source.path.as_str(), "photo").as_str(),
                    "-edited.jpg",
                ),
            ),
            None => Step::Nothing,
        };
        (step, finished)
    }

    /// Exports the photo to a file, if its name tells the form.
    pub fn export_to(&mut self, path: &str) -> (request: Option<ExportRequest>)
        ensures
            ({
                let destination = export_destination(path@);
                match (old(self)@.document, input::format_by_name(destination)) {
                    (Some(document), Some(format)) => {
                        &&& request matches Some(order)
                        &&& order.source_path@ == document.source.path@
                        &&& order.destination_path@ == destination
                        &&& order.operations@ == document.operations
                        &&& order.format == format
                        &&& final(self)@ == (SessionView { exporting: true, ..old(self)@ })
                    },
                    _ => request is None && final(self)@ == old(self)@,
                }
            }),
            old(self)@.document is Some && paths::last_part(path@) is Some && paths::extension_of(
                path@,
            ) is None ==> request is Some && request->0.format == (ExportFormat::Jpeg {
                quality: 92,
            }),
    {
        proof {
            reveal_strlit("jpg");
            reveal_strlit(".");
        }
        let destination: String = match paths::extension(path) {
            Some(_) => text::copied(path),
            None => {
                let named: String = paths::with_extension(path, "jpg");
                proof {
                    if paths::last_part(path@) is Some {
                        paths::lemma_extension_behind(paths::stem_of(path@)->0, "jpg"@);
                    }
                }
                named
            },
        };
        match (&self.document, input::export_format(destination.as_str())) {
            (Some(document), Some(format)) => {
                let request = ExportRequest {
                    source_path: document.source.path.clone(),
                    destination_path: destination,
                    operations: list::copied(&document.operations),
                    format,
                };
                self.exporting = true;
                Some(request)
            },
            _ => None,
        }
    }

    /// Takes notice of an export that begins or ends.
    pub fn set_exporting(&mut self, exporting: bool)
        ensures
            final(self)@ == (SessionView { exporting, ..old(self)@ }),
    {
        self.exporting = exporting;
    }

    /// Copies the photo to the clipboard.
    pub fn copy_image(&self) -> (copy: CopyStep)
        ensures
            copy is Nothing <==> self@.exporting || (!self@.crops() && self@.document is None),
            copy is EndCropFirst <==> !self@.exporting && self@.crops(),
            copy matches CopyStep::Render(request) ==> {
                &&& request.source_path@ == self@.document->0.source.path@
                &&& request.operations@ == self@.document->0.operations
            },
    {
        if self.exporting {
            return CopyStep::Nothing;
        }
        if self.crop_edit_start.is_some() {
            return CopyStep::EndCropFirst;
        }
        match &self.document {
            Some(document) => CopyStep::Render(
                CopyRequest {
                    source_path: document.source.path.clone(),
                    operations: list::copied(&document.operations),
                },
            ),
            None => CopyStep::Nothing,
        }
    }

    /// What is to be done regularly: a preview for a canvas of another size,
    /// and saving what has changed a while ago.
    pub fn tick(&mut self, now: u64, canvas: (u32, u32)) -> (tick: Tick)
        ensures
            ({
                let fitted = old(self)@.fitted(now, canvas);
                &&& state::asked(tick.preview) == if old(self)@.is_resized(canvas) {
                    old(self)@.resizing().next_request(canvas)
                } else {
                    None::<RequestView>
                }
                &&& crop::saved(tick.autosave) == if fitted.save_is_due(now) {
                    fitted.to_save()
                } else {
                    None::<(Seq<char>, DocumentView)>
                }
                &&& final(self)@ == if fitted.save_is_due(now) {
                    SessionView { changed_at: None, ..fitted }
                } else {
                    fitted
                }
            }),
    {
        let mut preview: Option<PreviewRequest> = None;
        if self.document.is_some() && canvas.0 >= MIN_CANVAS_SIZE && canvas.1 >= MIN_CANVAS_SIZE
            && !(canvas.0 == self.last_canvas_size.0 && canvas.1 == self.last_canvas_size.1) {
            if self.show_original {
                self.original_preview_pending = true;
            }
            preview = self.queue_preview(now, canvas);
        }
        let due: bool = match self.changed_at {
            Some(changed) => now >= changed && now - changed >= AUTOSAVE_DELAY,
            None => false,
        };
        let mut autosave: Option<Autosave> = None;
        if due {
            autosave = self.flush_autosave();
            self.changed_at = None;
        }
        Tick { preview, autosave }
    }
}

} // verus!
