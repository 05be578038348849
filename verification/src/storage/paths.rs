//! Paths, as text. What a path means is for the platform that the library is
//! built for to say: a Unix-like one, where only slashes separate and nothing
//! names a drive, or Windows.

use std::path::Path;

use vstd::prelude::*;

use crate::text;

verus! {

/// An optional text.
pub open spec fn text_of(value: Option<String>) -> Option<Seq<char>> {
    match value {
        Some(words) => Some(words@),
        None => None,
    }
}

/// The directory that a path lies in, as the platform has it.
pub uninterp spec fn parent_of(path: Seq<char>) -> Option<Seq<char>>;

/// Whether a path starts at a root, as the platform has it.
pub uninterp spec fn absolute(path: Seq<char>) -> bool;

/// The last part of a path, as the platform has it.
pub uninterp spec fn last_part(path: Seq<char>) -> Option<Seq<char>>;

/// Where the last full stop of a name stands, or -1 in a name without one.
pub open spec fn last_stop(name: Seq<char>) -> int
    decreases name.len(),
{
    if name.len() == 0 || name.last() == '.' {
        name.len() - 1
    } else {
        last_stop(name.drop_last())
    }
}

/// The part of the last part before its last full stop. A name with no full
/// stop but one in front is taken as a whole.
pub open spec fn stem_of(path: Seq<char>) -> Option<Seq<char>> {
    match last_part(path) {
        Some(name) => Some(
            if last_stop(name) > 0 {
                name.take(last_stop(name))
            } else {
                name
            },
        ),
        None => None,
    }
}

/// The part of the last part behind its last full stop. A name with no full
/// stop but one in front has none.
pub open spec fn extension_of(path: Seq<char>) -> Option<Seq<char>> {
    match last_part(path) {
        Some(name) => if last_stop(name) > 0 {
            Some(name.skip(last_stop(name) + 1))
        } else {
            None
        },
        None => None,
    }
}

/// Whether a character cannot separate the parts of a path on any platform.
pub open spec fn separates_nothing(c: char) -> bool {
    c != '/' && c != '\\' && c != ':'
}

/// Whether a character separates the parts of a path on some platform.
pub open spec fn is_separator(c: char) -> bool {
    c == '/' || c == '\\'
}

pub open spec fn is_letter(c: char) -> bool {
    'a' <= c <= 'z' || 'A' <= c <= 'Z'
}

/// Whether a letter and a colon stand at a place of a text, which name a drive
/// on platforms that have drives.
pub open spec fn drive_at(words: Seq<char>, i: int) -> bool {
    0 <= i && i + 1 < words.len() && is_letter(words[i]) && words[i + 1] == ':'
}

/// Whether a path begins as one to another machine does, on platforms that
/// have such paths.
pub open spec fn begins_with_two_separators(path: Seq<char>) -> bool {
    path.len() >= 2 && is_separator(path[0]) && is_separator(path[1])
}

/// Whether a path starts at the one root of a Unix-like platform. On Windows
/// no path that begins with a single slash is absolute.
pub open spec fn has_only_root(path: Seq<char>) -> bool {
    absolute(path) && path.len() > 0 && path[0] == '/' && !begins_with_two_separators(path)
}

/// Whether a path is handed to the system as it stands, on platforms where a
/// prefix says so.
pub open spec fn is_verbatim(path: Seq<char>) -> bool {
    path.len() >= 4 && path[0] == '\\' && path[1] == '\\' && path[2] == '?' && path[3] == '\\'
}

/// Whether a verbatim path leads to another machine.
pub open spec fn is_verbatim_network(path: Seq<char>) -> bool {
    &&& is_verbatim(path)
    &&& path.len() >= 8 && path[4] == 'U' && path[5] == 'N' && path[6] == 'C' && path[7] == '\\'
}

/// Whether a path has a last part, in front of which stands nothing that the
/// next part could become a piece of. It could where the path begins as one to
/// another machine does, but the machine or the share is missing.
pub open spec fn has_clear_name(path: Seq<char>) -> bool {
    &&& last_part(path) is Some
    &&& absolute(path) || !begins_with_two_separators(path)
    &&& !is_verbatim_network(path)
}

/// Whether a text can name a file in the place of the last part of a path, on
/// every platform. A separator in the last part separates nothing there, and
/// so does none in the name; but a verbatim path has separators of its own.
pub open spec fn is_name_beside(name: Seq<char>, path: Seq<char>) -> bool {
    &&& name.len() > 0
    &&& name != "."@
    &&& name != ".."@
    &&& has_only_root(path) || !drive_at(name, 0)
    &&& forall|i: int|
        0 <= i < name.len() && is_separator(#[trigger] name[i]) ==> !is_verbatim(path)
            && last_part(path)->0.contains(name[i])
}

/// Whether the last part of a path can be replaced by a name that it is a part
/// of.
pub open spec fn name_can_grow(path: Seq<char>) -> bool {
    &&& has_clear_name(path)
    &&& has_only_root(path) || !drive_at(last_part(path)->0, 0)
    &&& is_verbatim(path) ==> forall|i: int|
        0 <= i < last_part(path)->0.len() ==> !is_separator(#[trigger] last_part(path)->0[i])
}

/// Whether only two full stops are left of the last part without its
/// extension.
pub open spec fn is_extension_of_stops(path: Seq<char>) -> bool {
    match last_part(path) {
        Some(name) => last_stop(name) == 1 && name[0] == '.',
        None => false,
    }
}

/// A path behind another, as the platform has it.
pub uninterp spec fn joined_path(base: Seq<char>, path: Seq<char>) -> Seq<char>;

/// A path with another last part, as the platform has it.
pub uninterp spec fn renamed(path: Seq<char>, name: Seq<char>) -> Seq<char>;

/// A path with another extension, as the platform has it.
pub uninterp spec fn with_other_extension(path: Seq<char>, extension: Seq<char>) -> Seq<char>;

/// The way from a directory to a path, as the platform has it.
pub uninterp spec fn way_to(path: Seq<char>, base: Seq<char>) -> Option<Seq<char>>;

/// Whether two different texts are the same path, part by part, as the
/// platform has it.
pub uninterp spec fn same_parts(a: Seq<char>, b: Seq<char>) -> bool;

/// Whether two texts are the same path.
pub open spec fn same_path(a: Seq<char>, b: Seq<char>) -> bool {
    a == b || same_parts(a, b)
}

/// Calls `Path::eq`: paths are compared part by part, so that equal texts are
/// equal paths.
#[verifier::external_body]
pub(crate) fn is_same(a: &str, b: &str) -> (result: bool)
    ensures
        result == (a@ == b@ || same_parts(a@, b@)),
{
    Path::new(a).eq(Path::new(b))
}

/// Calls `Path::parent`: the path without its last part. The empty path has
/// none.
#[verifier::external_body]
pub(crate) fn parent(path: &str) -> (result: Option<String>)
    ensures
        text_of(result) == parent_of(path@),
        path@.len() == 0 ==> result is None,
{
    Path::new(path).parent().map(|parent| parent.to_string_lossy().into_owned())
}

/// Calls `Path::is_absolute`.
#[verifier::external_body]
pub(crate) fn is_absolute(path: &str) -> (result: bool)
    ensures
        result == absolute(path@),
{
    Path::new(path).is_absolute()
}

/// Calls `Path::file_name`.
#[verifier::external_body]
pub(crate) fn file_name(path: &str) -> (result: Option<String>)
    ensures
        text_of(result) == last_part(path@),
{
    Path::new(path).file_name().map(|name| name.to_string_lossy().into_owned())
}

/// Calls `Path::file_stem`: the file name up to its last full stop.
#[verifier::external_body]
pub(crate) fn file_stem(path: &str) -> (result: Option<String>)
    ensures
        text_of(result) == stem_of(path@),
{
    Path::new(path).file_stem().map(|stem| stem.to_string_lossy().into_owned())
}

/// Calls `Path::extension`: the file name behind its last full stop.
#[verifier::external_body]
pub(crate) fn extension(path: &str) -> (result: Option<String>)
    ensures
        text_of(result) == extension_of(path@),
{
    Path::new(path).extension().map(|extension| extension.to_string_lossy().into_owned())
}

/// Calls `Path::join`: a path that starts at a root replaces the one that it
/// is joined to.
#[verifier::external_body]
pub(crate) fn join(base: &str, path: &str) -> (result: String)
    ensures
        result@ == joined_path(base@, path@),
        absolute(path@) ==> result@ == path@,
{
    Path::new(base).join(path).to_string_lossy().into_owned()
}

/// Calls `Path::with_file_name`: the file that has the name in the same
/// directory. What becomes of a name with separators in it, of a path that
/// names no file, of one that begins as one to another machine does without
/// being absolute, or of a verbatim one to another machine, is not claimed, nor
/// how the directory of a verbatim path is then written.
#[verifier::external_body]
pub(crate) fn with_file_name(path: &str, name: &str) -> (result: String)
    ensures
        result@ == renamed(path@, name@),
        has_clear_name(path@) && is_name_beside(name@, path@) ==> last_part(result@) == Some(
            name@,
        ),
        has_clear_name(path@) && is_name_beside(name@, path@) && !is_verbatim(path@) ==> parent_of(
            result@,
        ) == parent_of(path@),
{
    Path::new(path).with_file_name(name).to_string_lossy().into_owned()
}

/// Calls `Path::with_extension`: the stem of the file name, which is never
/// empty, a full stop and the extension. An extension with a separator in it
/// is not allowed there. What becomes of a name with nothing but two full
/// stops in front of its extension is not claimed.
#[verifier::external_body]
pub(crate) fn with_extension(path: &str, extension: &str) -> (result: String)
    requires
        forall|i: int| 0 <= i < extension@.len() ==> separates_nothing(#[trigger] extension@[i]),
    ensures
        result@ == with_other_extension(path@, extension@),
        last_part(path@) is Some && extension@.len() > 0 && !is_extension_of_stops(path@)
            ==> last_part(result@) == Some(
            stem_of(path@)->0 + "."@ + extension@,
        ) && last_part(result@)->0.len() > extension@.len() + 1,
{
    Path::new(path).with_extension(extension).to_string_lossy().into_owned()
}

/// Whether a text leads down from a directory: it begins with no separator,
/// and on platforms that have drives none of its parts begins with one.
pub open spec fn leads_down(way: Seq<char>, directory: Seq<char>) -> bool {
    &&& way.len() > 0
    &&& way[0] != '/'
    &&& has_only_root(directory) || {
        &&& way[0] != '\\'
        &&& !drive_at(way, 0)
        &&& forall|i: int|
            0 <= i < way.len() && is_separator(#[trigger] way[i]) ==> !drive_at(way, i + 1)
    }
}

/// Whether a path lies below a directory.
pub open spec fn lies_below(path: Seq<char>, directory: Seq<char>) -> bool {
    exists|way: Seq<char>|
        leads_down(way, directory) && path == #[trigger] joined_path(directory, way)
}

/// Where a path leads from a directory: one that starts at a root leads where
/// it leads from everywhere.
pub open spec fn found_from(path: Seq<char>, directory: Seq<char>) -> Seq<char> {
    if absolute(path) {
        path
    } else {
        joined_path(directory, path)
    }
}

/// Calls `pathdiff::diff_paths`. Where only one of the two starts at a root,
/// an absolute path is handed back as it is, and a relative one has no way.
/// Where both do, there is a way to a path below the base, and it leads from
/// the base to the same path again. Whether a way that leads upwards does
/// so depends on what the directories are, and is not claimed.
#[verifier::external_body]
pub(crate) fn relative_to(path: &str, base: &str) -> (result: Option<String>)
    ensures
        text_of(result) == way_to(path@, base@),
        absolute(path@) && !absolute(base@) ==> text_of(result) == Some(path@),
        !absolute(path@) && absolute(base@) ==> result is None,
        absolute(path@) && absolute(base@) && lies_below(path@, base@) ==> result is Some
            && same_path(found_from(result->0@, base@), path@),
{
    pathdiff::diff_paths(path, base).map(|way| way.to_string_lossy().into_owned())
}

/// The name of the file that a project is written to before it takes the
/// project's place.
pub open spec fn temporary_path(path: Seq<char>) -> Seq<char> {
    let name = match last_part(path) {
        Some(name) => name,
        None => Seq::empty(),
    };
    renamed(path, name + ".tmp"@)
}

/// The directory of a project file. A path without one, or with an empty one,
/// has none.
pub open spec fn project_directory(path: Seq<char>) -> Option<Seq<char>> {
    match parent_of(path) {
        Some(parent) => if parent.len() > 0 {
            Some(parent)
        } else {
            None
        },
        None => None,
    }
}

/// The last full stop of a name has none behind it.
pub proof fn lemma_last_stop(name: Seq<char>)
    ensures
        -1 <= last_stop(name) < name.len(),
        forall|i: int| last_stop(name) < i < name.len() ==> #[trigger] name[i] != '.',
    decreases name.len(),
{
    if name.len() > 0 && name.last() != '.' {
        lemma_last_stop(name.drop_last());
        assert forall|i: int| last_stop(name) < i < name.len() implies #[trigger] name[i] != '.' by {
            if i < name.len() - 1 {
                assert(name.drop_last()[i] == name[i]);
            }
        }
    }
}

/// A name made of a stem, a full stop and an extension without one has that
/// extension.
pub proof fn lemma_extension_behind(stem: Seq<char>, extension: Seq<char>)
    requires
        stem.len() > 0,
        forall|i: int| 0 <= i < extension.len() ==> #[trigger] extension[i] != '.',
    ensures
        last_stop(stem + "."@ + extension) == stem.len(),
        (stem + "."@ + extension).skip(stem.len() as int + 1) == extension,
    decreases extension.len(),
{
    reveal_strlit(".");
    let name = stem + "."@ + extension;
    if extension.len() > 0 {
        lemma_extension_behind(stem, extension.drop_last());
        assert(name.drop_last() =~= stem + "."@ + extension.drop_last());
    }
    assert(name.skip(stem.len() as int + 1) =~= extension);
}

/// A name that begins with the last part of a path, or with some of it, and
/// goes on with plain characters and others of the last part.
pub proof fn lemma_grown_name(path: Seq<char>, start: Seq<char>, rest: Seq<char>)
    requires
        name_can_grow(path),
        rest.len() > 2,
        rest[0] != ':',
        rest[1] != ':',
        start.len() <= last_part(path)->0.len(),
        start == last_part(path)->0.take(start.len() as int),
        forall|i: int|
            0 <= i < rest.len() && is_separator(#[trigger] rest[i]) ==> last_part(
                path,
            )->0.contains(rest[i]),
    ensures
        is_name_beside(start + rest, path),
{
    let last = last_part(path)->0;
    let name = start + rest;
    reveal_strlit(".");
    reveal_strlit("..");
    assert forall|i: int| 0 <= i < name.len() && is_separator(#[trigger] name[i]) implies
        !is_verbatim(path) && last.contains(name[i]) by {
        if i < start.len() {
            assert(name[i] == last[i]);
        } else {
            assert(name[i] == rest[i - start.len()]);
        }
        let k = choose|k: int| 0 <= k < last.len() && last[k] == name[i];
        assert(is_separator(last[k]));
    }
    if start.len() >= 2 {
        assert(name[0] == last[0] && name[1] == last[1]);
    } else if start.len() == 1 {
        assert(name[1] == rest[0]);
    } else {
        assert(name[1] == rest[1]);
    }
    assert(has_only_root(path) || !drive_at(name, 0));
    assert(name.len() > 2);
    assert("."@.len() == 1 && ".."@.len() == 2);
}

/// Names the temporary file of a project, which lies in the same directory.
pub fn temporary_path_for(path: &str) -> (result: String)
    ensures
        result@ == temporary_path(path@),
        name_can_grow(path@) ==> {
            &&& !is_verbatim(path@) ==> parent_of(result@) == parent_of(path@)
            &&& last_part(result@) == Some(last_part(path@)->0 + ".tmp"@)
        },
{
    proof {
        reveal_strlit(".tmp");
    }
    match file_name(path) {
        Some(name) => {
            proof {
                if name_can_grow(path@) {
                    assert(name@ =~= name@.take(name@.len() as int));
                    lemma_grown_name(path@, name@, ".tmp"@);
                }
            }
            with_file_name(path, text::joined(name.as_str(), ".tmp").as_str())
        },
        None => {
            assert(Seq::<char>::empty() + ".tmp"@ =~= ".tmp"@);
            with_file_name(path, ".tmp")
        },
    }
}

/// Finds the directory of a project file.
pub fn directory_of(path: &str) -> (result: Option<String>)
    ensures
        text_of(result) == project_directory(path@),
{
    match parent(path) {
        Some(parent) => {
            if parent.as_str().unicode_len() > 0 {
                Some(parent)
            } else {
                None
            }
        },
        None => None,
    }
}

} // verus!
