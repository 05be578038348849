//! What holds of saving and opening.

use vstd::prelude::*;

use crate::document::migrate;
use crate::document::migrate_laws;
use crate::document::project::DocumentView;
use crate::storage::paths;
use crate::storage::project_file;

verus! {

/// A project that was saved can be opened, and opening it changes nothing but
/// the path of the source image: the saved document is valid and in its newest
/// form. With the path it reads as the document that was saved, brought up to
/// date.
pub proof fn what_was_saved_can_be_opened(
    document: DocumentView,
    saved: DocumentView,
    directory: Seq<char>,
)
    requires
        document.valid(),
        project_file::is_kept(saved, document, directory),
    ensures
        saved.valid(),
        migrate::upgraded(saved) == saved,
        saved == (DocumentView { source: saved.source, ..migrate::upgraded(document) }),
        !paths::absolute(document.source.path@) ==> saved.source.path@ == document.source.path@,
{
    migrate_laws::upgrading_keeps_a_document_valid(document);
    migrate_laws::upgrading_twice_is_upgrading_once(document);
    let once = migrate::upgraded(document);
    let twice = migrate::upgraded(saved);
    assert(twice.operations == migrate::upgraded(once).operations);
    assert(twice.history == migrate::upgraded(once).history);
}

/// Opening a project that was saved gives the document back that was saved,
/// brought up to date: the same operations, view, history and fingerprint, and
/// for an image below the project's directory the same path.
pub proof fn what_was_saved_is_opened_again(
    document: DocumentView,
    saved: DocumentView,
    loaded: DocumentView,
    directory: Seq<char>,
)
    requires
        document.valid(),
        paths::absolute(document.source.path@),
        paths::lies_below(document.source.path@, directory),
        project_file::is_kept(saved, document, directory),
        paths::absolute(saved.source.path@) ==> loaded == migrate::upgraded(saved),
        !paths::absolute(saved.source.path@) ==> project_file::is_opened(loaded, saved, directory),
    ensures
        loaded == (DocumentView { source: loaded.source, ..migrate::upgraded(document) }),
        loaded.source.fingerprint == document.source.fingerprint,
        paths::same_path(loaded.source.path@, document.source.path@),
{
    what_was_saved_can_be_opened(document, saved, directory);
}

} // verus!
