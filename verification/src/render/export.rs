//! Where and how exported files are written.

use vstd::prelude::*;

use crate::render::contracts::ExportFormat;
use crate::storage::paths;
use crate::text;

verus! {

/// The name of the file that an export is written to before it takes the
/// place of the destination. It keeps the extension, by which the form of the
/// file is known.
pub open spec fn unfinished_path(destination: Seq<char>) -> Seq<char> {
    let stem = match paths::stem_of(destination) {
        Some(stem) => stem,
        None => Seq::empty(),
    };
    let extension = match paths::extension_of(destination) {
        Some(extension) => extension,
        None => Seq::empty(),
    };
    let name = if extension.len() == 0 {
        stem + ".focusless-export.tmp"@
    } else {
        stem + ".focusless-export.tmp."@ + extension
    };
    paths::renamed(destination, name)
}

/// Names the unfinished file of an export. It lies in the directory of the
/// destination and has the same extension.
pub fn export_temporary_path(destination: &str) -> (path: String)
    ensures
        path@ == unfinished_path(destination@),
        paths::name_can_grow(destination@) && !paths::is_verbatim(destination@) ==> paths::parent_of(
            path@,
        ) == paths::parent_of(destination@),
        paths::name_can_grow(destination@) && paths::extension_of(destination@) is Some
            && paths::extension_of(destination@)->0.len() > 0 ==> paths::extension_of(path@)
            == paths::extension_of(destination@),
{
    let stem: String = match paths::file_stem(destination) {
        Some(stem) => stem,
        None => String::new(),
    };
    let extension: String = match paths::extension(destination) {
        Some(extension) => extension,
        None => String::new(),
    };
    let name: String = if extension.as_str().unicode_len() == 0 {
        text::joined(stem.as_str(), ".focusless-export.tmp")
    } else {
        let head: String = text::joined(stem.as_str(), ".focusless-export.tmp.");
        text::joined(head.as_str(), extension.as_str())
    };
    proof {
        if paths::name_can_grow(destination@) {
            lemma_unfinished_name(destination@, stem@, extension@);
        }
    }
    paths::with_file_name(destination, name.as_str())
}

/// The names of unfinished files name files, and keep their extension.
proof fn lemma_unfinished_name(path: Seq<char>, stem: Seq<char>, extension: Seq<char>)
    requires
        paths::name_can_grow(path),
        ({
            let whole = paths::last_part(path)->0;
            let stop = paths::last_stop(whole);
            &&& stem == if stop > 0 {
                whole.take(stop)
            } else {
                whole
            }
            &&& extension == if stop > 0 {
                whole.skip(stop + 1)
            } else {
                Seq::empty()
            }
        }),
    ensures
        paths::is_name_beside(stem + ".focusless-export.tmp"@, path),
        paths::is_name_beside(stem + ".focusless-export.tmp."@ + extension, path),
        ({
            let name = stem + ".focusless-export.tmp."@ + extension;
            &&& paths::last_stop(name) > 0
            &&& name.skip(paths::last_stop(name) + 1) == extension
        }),
{
    reveal_strlit(".focusless-export.tmp");
    reveal_strlit(".focusless-export.tmp.");
    reveal_strlit(".");
    let whole = paths::last_part(path)->0;
    let stop = paths::last_stop(whole);
    paths::lemma_last_stop(whole);
    let head = stem + ".focusless-export.tmp"@;
    let rest = ".focusless-export.tmp."@ + extension;
    assert forall|i: int| 0 <= i < extension.len() implies whole.contains(#[trigger] extension[i])
        && extension[i] != '.' by {
        assert(extension[i] == whole[stop + 1 + i]);
    }
    assert(stem =~= whole.take(stem.len() as int));
    assert forall|i: int| 0 <= i < rest.len() && paths::is_separator(#[trigger] rest[i]) implies
        whole.contains(rest[i]) by {
        let plain = ".focusless-export.tmp."@;
        if i >= plain.len() {
            assert(rest[i] == extension[i - plain.len()]);
        } else {
            assert(rest[i] == plain[i]);
        }
    }
    paths::lemma_grown_name(path, stem, ".focusless-export.tmp"@);
    paths::lemma_grown_name(path, stem, rest);
    assert(stem + rest =~= stem + ".focusless-export.tmp."@ + extension);
    paths::lemma_extension_behind(head, extension);
    assert(head + "."@ + extension =~= stem + ".focusless-export.tmp."@ + extension);
}

/// A quality within its range.
pub open spec fn quality_in_range(quality: u8) -> nat {
    if quality < 1 {
        1
    } else if quality > 100 {
        100
    } else {
        quality as nat
    }
}

fn clamp_quality(quality: u8) -> (result: u8)
    ensures
        result == quality_in_range(quality),
{
    if quality < 1 {
        1
    } else if quality > 100 {
        100
    } else {
        quality
    }
}

/// The file name with the options that the image library writes it by.
pub open spec fn write_options(
    path: Seq<char>,
    format: ExportFormat,
    profile: Seq<char>,
) -> Seq<char> {
    match format {
        ExportFormat::Jpeg { quality } => {
            path + "[Q="@ + text::decimal(quality_in_range(quality))
                + ",optimize-coding=true,interlace=true,keep=none,profile="@ + profile + "]"@
        },
        ExportFormat::Png => path + "[compression=6,keep=none,profile="@ + profile + "]"@,
        ExportFormat::WebP { quality } => {
            path + "[Q="@ + text::decimal(quality_in_range(quality)) + ",keep=none,profile="@
                + profile + "]"@
        },
    }
}

/// Writes out the file name with the options of an export.
pub fn export_target(path: &str, format: ExportFormat, profile: &str) -> (target: String)
    ensures
        target@ == write_options(path@, format, profile@),
{
    let mut target: String = String::from_str(path);
    match format {
        ExportFormat::Jpeg { quality } => {
            target.append("[Q=");
            target.append(text::decimal_string(clamp_quality(quality) as u64).as_str());
            target.append(",optimize-coding=true,interlace=true,keep=none,profile=");
        },
        ExportFormat::Png => {
            target.append("[compression=6,keep=none,profile=");
        },
        ExportFormat::WebP { quality } => {
            target.append("[Q=");
            target.append(text::decimal_string(clamp_quality(quality) as u64).as_str());
            target.append(",keep=none,profile=");
        },
    }
    target.append(profile);
    target.append("]");
    target
}

/// The place that was asked for.
pub open spec fn asked_place(asked_for: Option<Seq<char>>) -> Seq<Seq<char>> {
    match asked_for {
        Some(path) => seq![path],
        None => Seq::empty(),
    }
}

/// The places beside the program.
pub open spec fn places_beside(program_directory: Option<Seq<char>>) -> Seq<Seq<char>> {
    match program_directory {
        Some(directory) => seq![
            paths::joined_path(directory, "sRGB Color Space Profile.icm"@),
            paths::joined_path(directory, "sRGB.icc"@),
        ],
        None => Seq::empty(),
    }
}

/// The places where a color profile may lie: the one that was asked for, those
/// beside the program, then those of the platform.
pub fn srgb_profile_candidates(
    asked_for: Option<String>,
    program_directory: Option<String>,
    platform: &Vec<String>,
) -> (candidates: Vec<String>)
    ensures
        texts(candidates@) == asked_place(paths::text_of(asked_for)) + places_beside(
            paths::text_of(program_directory),
        ) + texts(platform@),
{
    let mut candidates: Vec<String> = Vec::new();
    let ghost first = asked_place(paths::text_of(asked_for));
    let ghost second = places_beside(paths::text_of(program_directory));
    if let Some(path) = asked_for {
        candidates.push(path);
    }
    assert(texts(candidates@) =~= first);
    if let Some(directory) = program_directory {
        candidates.push(paths::join(directory.as_str(), "sRGB Color Space Profile.icm"));
        candidates.push(paths::join(directory.as_str(), "sRGB.icc"));
    }
    assert(texts(candidates@) =~= first + second);
    let mut i: usize = 0;
    while i < platform.len()
        invariant
            i <= platform.len(),
            texts(candidates@) == first + second + texts(platform@.take(i as int)),
        decreases platform.len() - i,
    {
        let ghost before = candidates@;
        candidates.push(platform[i].clone());
        proof {
            assert(texts(candidates@) =~= texts(before).push(platform@[i as int]@));
            assert(texts(platform@.take(i + 1)) =~= texts(platform@.take(i as int)).push(
                platform@[i as int]@,
            ));
        }
        i = i + 1;
        assert(texts(candidates@) =~= first + second + texts(platform@.take(i as int)));
    }
    assert(platform@.take(platform.len() as int) =~= platform@);
    candidates
}

/// Texts as sequences of characters.
pub open spec fn texts(values: Seq<String>) -> Seq<Seq<char>> {
    Seq::new(values.len(), |i: int| values[i]@)
}

} // verus!
