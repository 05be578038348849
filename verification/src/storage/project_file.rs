//! What is written to a project file and what is made of one that was read.

use vstd::prelude::*;

use crate::document::migrate;
use crate::document::operation::{DocumentError, PROJECT_SCHEMA_VERSION};
use crate::document::project::{DocumentView, ProjectDocument};
use crate::storage::paths;
use crate::text;

verus! {

/// Why a project cannot be saved or opened.
#[derive(Clone, Debug, PartialEq, Eq)]
pub enum StorageError {
    Io { path: String, source: String },
    Json(String),
    UnsupportedSchema { found: u32, supported: u32 },
    InvalidDocument(DocumentError),
    MissingParent(String),
}

impl StorageError {
    /// The words for the error.
    pub open spec fn words(self) -> Seq<char> {
        match self {
            StorageError::Io { path, source } => {
                "I/O error at "@ + path@ + ": "@ + source@
            },
            StorageError::Json(reason) => "project JSON is invalid: "@ + reason@,
            StorageError::UnsupportedSchema { found, supported } => {
                "project schema "@ + text::decimal(found as nat)
                    + " is newer than supported schema "@ + text::decimal(supported as nat)
            },
            StorageError::InvalidDocument(error) => {
                "project document is invalid: "@ + error.words()
            },
            StorageError::MissingParent(path) => "project has no parent directory: "@ + path@,
        }
    }

    /// Says in words what is wrong.
    pub fn message(&self) -> (words: String)
        ensures
            words@ == self.words(),
    {
        match self {
            StorageError::Io { path, source } => {
                let head: String = text::joined("I/O error at ", path.as_str());
                let middle: String = text::joined(head.as_str(), ": ");
                text::joined(middle.as_str(), source.as_str())
            },
            StorageError::Json(reason) => {
                text::joined("project JSON is invalid: ", reason.as_str())
            },
            StorageError::UnsupportedSchema { found, supported } => {
                let head: String = text::joined(
                    "project schema ",
                    text::decimal_string(*found as u64).as_str(),
                );
                let middle: String = text::joined(
                    head.as_str(),
                    " is newer than supported schema ",
                );
                text::joined(middle.as_str(), text::decimal_string(*supported as u64).as_str())
            },
            StorageError::InvalidDocument(error) => {
                text::joined("project document is invalid: ", error.message().as_str())
            },
            StorageError::MissingParent(path) => {
                text::joined("project has no parent directory: ", path.as_str())
            },
        }
    }
}

/// What is to be written, and where: first to the temporary file, which then
/// takes the place of the project file.
#[derive(Clone, Debug, PartialEq)]
pub struct ProjectSave {
    pub directory: String,
    pub temporary_path: String,
    pub document: ProjectDocument,
}

/// The path of the source image as a project in a directory names it: relative
/// to the directory where it can be.
pub open spec fn stored_path(source: Seq<char>, directory: Seq<char>) -> Seq<char> {
    if paths::absolute(source) {
        match paths::way_to(source, directory) {
            Some(way) => way,
            None => source,
        }
    } else {
        source
    }
}

/// The document with the source image at another path.
pub open spec fn moved_source(
    document: DocumentView,
    original: DocumentView,
    path: Seq<char>,
) -> bool {
    &&& document.source.path@ == path
    &&& document.source.fingerprint == original.source.fingerprint
    &&& document == (DocumentView { source: document.source, ..original })
}

/// Whether a document is what a project in a directory keeps of another: it is
/// in its newest form, and names the source image relative to the directory
/// where it can. An image below the directory is found again from there.
pub open spec fn is_kept(
    saved: DocumentView,
    document: DocumentView,
    directory: Seq<char>,
) -> bool {
    let source = document.source.path@;
    &&& moved_source(saved, migrate::upgraded(document), stored_path(source, directory))
    &&& paths::absolute(source) && paths::lies_below(source, directory) ==> paths::same_path(
        paths::found_from(saved.source.path@, directory),
        source,
    )
}

/// Whether a document is what is opened of a project in a directory: it is in
/// its newest form, and names the source image where it is found from there.
pub open spec fn is_opened(
    loaded: DocumentView,
    saved: DocumentView,
    directory: Seq<char>,
) -> bool {
    moved_source(
        loaded,
        migrate::upgraded(saved),
        paths::found_from(saved.source.path@, directory),
    )
}

/// The directory that a project file goes to.
pub fn project_parent(path: &str) -> (result: Result<String, StorageError>)
    ensures
        match paths::project_directory(path@) {
            Some(directory) => result matches Ok(found) && found@ == directory,
            None => result matches Err(StorageError::MissingParent(missing)) && missing@ == path@,
        },
{
    match paths::directory_of(path) {
        Some(directory) => Ok(directory),
        None => Err(StorageError::MissingParent(text::copied(path))),
    }
}

/// Prepares a project for saving: the document in its newest form, with the
/// source image named relative to the project's directory. An image below
/// that directory is found again when the project is opened. The temporary
/// file lies in the same directory as the project.
pub fn save_project(path: &str, document: &ProjectDocument) -> (result: Result<
    ProjectSave,
    StorageError,
>)
    ensures
        match result {
            Ok(save) => {
                &&& paths::project_directory(path@) == Some(save.directory@)
                &&& document@.valid()
                &&& save.temporary_path@ == paths::temporary_path(path@)
                &&& paths::name_can_grow(path@) && !paths::is_verbatim(path@) ==> paths::parent_of(
                    save.temporary_path@,
                ) == Some(save.directory@)
                &&& is_kept(save.document@, document@, save.directory@)
            },
            Err(StorageError::MissingParent(missing)) => {
                &&& paths::project_directory(path@) is None
                &&& missing@ == path@
            },
            Err(StorageError::InvalidDocument(error)) => {
                &&& paths::project_directory(path@) is Some
                &&& !document@.valid()
                &&& document@.is_error(error)
            },
            Err(_) => false,
        },
{
    let directory: String = match project_parent(path) {
        Ok(directory) => directory,
        Err(error) => {
            return Err(error);
        },
    };
    let mut persisted: ProjectDocument = document.duplicate();
    if let Err(error) = persisted.upgrade_to_latest() {
        return Err(StorageError::InvalidDocument(error));
    }
    if paths::is_absolute(persisted.source.path.as_str()) {
        if let Some(way) = paths::relative_to(persisted.source.path.as_str(), directory.as_str()) {
            persisted.source.path = way;
        }
    }
    Ok(
        ProjectSave { directory, temporary_path: paths::temporary_path_for(path), document: persisted },
    )
}

/// Makes a document that was read from a project file ready for editing: in
/// its newest form, with the source image found from the project's directory.
pub fn load_project(path: &str, document: ProjectDocument) -> (result: Result<
    ProjectDocument,
    StorageError,
>)
    ensures
        match result {
            Ok(loaded) => {
                &&& document@.valid()
                &&& paths::absolute(document@.source.path@) ==> loaded@ == migrate::upgraded(
                    document@,
                )
                &&& !paths::absolute(document@.source.path@) ==> {
                    &&& paths::project_directory(path@) matches Some(directory)
                    &&& is_opened(loaded@, document@, directory)
                }
            },
            Err(StorageError::UnsupportedSchema { found, supported }) => {
                &&& document@.schema_version > PROJECT_SCHEMA_VERSION
                &&& found == document@.schema_version
                &&& supported == PROJECT_SCHEMA_VERSION
            },
            Err(StorageError::InvalidDocument(error)) => {
                &&& document@.schema_version <= PROJECT_SCHEMA_VERSION
                &&& !document@.valid()
                &&& document@.is_error(error)
            },
            Err(StorageError::MissingParent(missing)) => {
                &&& document@.valid()
                &&& !paths::absolute(document@.source.path@)
                &&& paths::project_directory(path@) is None
                &&& missing@ == path@
            },
            Err(_) => false,
        },
{
    if document.schema_version > PROJECT_SCHEMA_VERSION {
        return Err(
            StorageError::UnsupportedSchema {
                found: document.schema_version,
                supported: PROJECT_SCHEMA_VERSION,
            },
        );
    }
    let mut loaded: ProjectDocument = document;
    if let Err(error) = loaded.upgrade_to_latest() {
        return Err(StorageError::InvalidDocument(error));
    }
    if !paths::is_absolute(loaded.source.path.as_str()) {
        match project_parent(path) {
            Ok(directory) => {
                loaded.source.path = paths::join(directory.as_str(), loaded.source.path.as_str());
            },
            Err(error) => {
                return Err(error);
            },
        }
    }
    Ok(loaded)
}

/// The unfinished file of a save that did not end, where there is one.
pub fn recovery_candidate(path: &str, temporary_exists: bool) -> (result: Option<String>)
    ensures
        paths::text_of(result) == if temporary_exists {
            Some(paths::temporary_path(path@))
        } else {
            None
        },
{
    if temporary_exists {
        Some(paths::temporary_path_for(path))
    } else {
        None
    }
}

} // verus!
