//! What the user types, and the names of files.

use vstd::prelude::*;

use crate::number::scalar::Scalar;
use crate::render::contracts::ExportFormat;
use crate::storage::paths;
use crate::text;

verus! {

/// Whether a character is white space: one of the characters with the property
/// `White_Space` of Unicode.
pub open spec fn is_white_space(c: char) -> bool {
    ||| '\u{9}' <= c <= '\u{d}'
    ||| c == ' '
    ||| c == '\u{85}'
    ||| c == '\u{a0}'
    ||| c == '\u{1680}'
    ||| '\u{2000}' <= c <= '\u{200a}'
    ||| '\u{2028}' <= c <= '\u{2029}'
    ||| c == '\u{202f}'
    ||| c == '\u{205f}'
    ||| c == '\u{3000}'
}

/// A text without the white space at its ends.
pub open spec fn without_outer_space(words: Seq<char>) -> Seq<char>
    decreases words.len(),
{
    if words.len() == 0 {
        words
    } else if is_white_space(words[0]) {
        without_outer_space(words.drop_first())
    } else if is_white_space(words.last()) {
        without_outer_space(words.drop_last())
    } else {
        words
    }
}

fn is_space(c: char) -> (result: bool)
    ensures
        result == is_white_space(c),
{
    (c >= '\u{9}' && c <= '\u{d}') || c == ' ' || c == '\u{85}' || c == '\u{a0}' || c == '\u{1680}'
        || (c >= '\u{2000}' && c <= '\u{200a}') || (c >= '\u{2028}' && c <= '\u{2029}') || c
        == '\u{202f}' || c == '\u{205f}' || c == '\u{3000}'
}

/// Takes the white space at the ends of a text away.
fn trimmed(words: &str) -> (result: String)
    ensures
        result@ == without_outer_space(words@),
{
    let length: usize = words.unicode_len();
    let mut start: usize = 0;
    assert(words@.subrange(0, length as int) =~= words@);
    while start < length && is_space(words.get_char(start))
        invariant
            start <= length,
            length == words@.len(),
            without_outer_space(words@.subrange(start as int, length as int))
                == without_outer_space(words@),
        ensures
            start < length ==> !is_white_space(words@[start as int]),
        decreases length - start,
    {
        proof {
            let rest = words@.subrange(start as int, length as int);
            assert(rest.drop_first() =~= words@.subrange(start + 1, length as int));
        }
        start = start + 1;
    }
    let mut end: usize = length;
    while start < end && is_space(words.get_char(end - 1))
        invariant
            start <= end <= length,
            length == words@.len(),
            start < length ==> !is_white_space(words@[start as int]),
            without_outer_space(words@.subrange(start as int, end as int)) == without_outer_space(
                words@,
            ),
        ensures
            start < end ==> !is_white_space(words@[end - 1]),
        decreases end - start,
    {
        proof {
            let rest = words@.subrange(start as int, end as int);
            assert(rest.drop_last() =~= words@.subrange(start as int, end - 1));
        }
        end = end - 1;
    }
    text::copied(words.substring_char(start, end))
}

/// Whether a character is a decimal digit.
pub open spec fn is_digit(c: char) -> bool {
    '0' <= c <= '9'
}

/// Whether a character separates whole digits from a fraction.
pub open spec fn is_separator(c: char) -> bool {
    c == '.' || c == ','
}

/// Whether a text is a plain decimal number: digits, at most one separator
/// among them, and a sign in front at most.
pub open spec fn is_plain_number(words: Seq<char>) -> bool {
    &&& exists|i: int| 0 <= i < words.len() && is_digit(#[trigger] words[i])
    &&& forall|i: int|
        0 <= i < words.len() ==> {
            ||| is_digit(#[trigger] words[i])
            ||| is_separator(words[i])
            ||| (i == 0 && (words[i] == '+' || words[i] == '-'))
        }
    &&& forall|i: int, j: int|
        0 <= i < j < words.len() ==> !(is_separator(#[trigger] words[i]) && is_separator(
            #[trigger] words[j],
        ))
}

/// A text with full stops for commas.
pub open spec fn with_full_stops(words: Seq<char>) -> Seq<char> {
    Seq::new(
        words.len(),
        |i: int|
            if words[i] == ',' {
                '.'
            } else {
                words[i]
            },
    )
}

/// The number that a user typed, as digits with a full stop; nothing but a
/// plain decimal number is accepted.
pub fn parse_numeric_value(words: &str) -> (number: Option<String>)
    ensures
        paths::text_of(number) == if is_plain_number(without_outer_space(words@)) {
            Some(with_full_stops(without_outer_space(words@)))
        } else {
            None
        },
{
    let trimmed: String = trimmed(words);
    normalized_number(trimmed.as_str())
}

/// The digits of a plain decimal number with a full stop.
pub fn normalized_number(trimmed: &str) -> (number: Option<String>)
    ensures
        paths::text_of(number) == if is_plain_number(trimmed@) {
            Some(with_full_stops(trimmed@))
        } else {
            None
        },
{
    let length: usize = trimmed.unicode_len();
    let mut has_digit: bool = false;
    let mut has_separator: bool = false;
    let mut normalized: String = String::new();
    let mut i: usize = 0;
    proof {
        reveal_strlit(".");
    }
    while i < length
        invariant
            i <= length,
            length == trimmed@.len(),
            "."@ == seq!['.'],
            has_digit == exists|k: int| 0 <= k < i && is_digit(#[trigger] trimmed@[k]),
            has_separator == exists|k: int| 0 <= k < i && is_separator(#[trigger] trimmed@[k]),
            forall|k: int|
                0 <= k < i ==> {
                    ||| is_digit(#[trigger] trimmed@[k])
                    ||| is_separator(trimmed@[k])
                    ||| (k == 0 && (trimmed@[k] == '+' || trimmed@[k] == '-'))
                },
            forall|k: int, j: int|
                0 <= k < j < i ==> !(is_separator(#[trigger] trimmed@[k]) && is_separator(
                    #[trigger] trimmed@[j],
                )),
            normalized@ == with_full_stops(trimmed@).take(i as int),
        decreases length - i,
    {
        let c: char = trimmed.get_char(i);
        if c >= '0' && c <= '9' {
            has_digit = true;
        } else if (c == '+' || c == '-') && i == 0 {
        } else if (c == '.' || c == ',') && !has_separator {
            has_separator = true;
        } else {
            return None;
        }
        if c == ',' {
            normalized.append(".");
        } else {
            normalized.append(trimmed.substring_char(i, i + 1));
        }
        i = i + 1;
        assert(normalized@ =~= with_full_stops(trimmed@).take(i as int));
    }
    assert(with_full_stops(trimmed@).take(length as int) =~= with_full_stops(trimmed@));
    if has_digit {
        Some(normalized)
    } else {
        None
    }
}

/// A number that was typed, within the range of what it sets. Only a finite
/// number is accepted.
pub fn submitted_value(parsed: Option<Scalar>, minimum: Scalar, maximum: Scalar) -> (value: Option<
    Scalar,
>)
    requires
        minimum.at_most(maximum),
    ensures
        value == match parsed {
            Some(number) => if number.finite() {
                Some(number.clamped(minimum, maximum))
            } else {
                None
            },
            None => None,
        },
{
    match parsed {
        Some(number) => {
            if number.is_finite() {
                Some(number.clamp(minimum, maximum))
            } else {
                None
            }
        },
        None => None,
    }
}

/// A letter in lower case; any other character is left as it is.
pub open spec fn lowered(c: char) -> char {
    if 'A' <= c <= 'Z' {
        (c as u32 + 32) as char
    } else {
        c
    }
}

/// A text with its plain letters in lower case.
pub open spec fn all_lowered(words: Seq<char>) -> Seq<char> {
    Seq::new(words.len(), |i: int| lowered(words[i]))
}

/// Whether two texts are equal but for the case of plain letters.
pub open spec fn same_but_for_case(a: Seq<char>, b: Seq<char>) -> bool {
    all_lowered(a) == all_lowered(b)
}

fn lower_code(c: char) -> (code: u32)
    ensures
        code == lowered(c) as u32,
{
    let code: u32 = c as u32;
    if code >= 65 && code <= 90 {
        code + 32
    } else {
        code
    }
}

/// Compares two texts, whatever the case of plain letters.
pub fn equals_ignoring_case(a: &str, b: &str) -> (result: bool)
    ensures
        result == same_but_for_case(a@, b@),
{
    let length: usize = a.unicode_len();
    if length != b.unicode_len() {
        assert(all_lowered(a@).len() != all_lowered(b@).len());
        return false;
    }
    let mut i: usize = 0;
    while i < length
        invariant
            i <= length,
            length == a@.len(),
            length == b@.len(),
            forall|k: int| 0 <= k < i ==> lowered(#[trigger] a@[k]) == lowered(b@[k]),
        decreases length - i,
    {
        if lower_code(a.get_char(i)) != lower_code(b.get_char(i)) {
            assert(all_lowered(a@)[i as int] != all_lowered(b@)[i as int]);
            return false;
        }
        i = i + 1;
    }
    assert(all_lowered(a@) =~= all_lowered(b@));
    true
}

/// Whether a path has an extension, in whatever case.
pub open spec fn ends_in(path: Seq<char>, expected: Seq<char>) -> bool {
    match paths::extension_of(path) {
        Some(extension) => same_but_for_case(extension, expected),
        None => false,
    }
}

pub fn has_extension(path: &str, expected: &str) -> (result: bool)
    ensures
        result == ends_in(path@, expected@),
{
    match paths::extension(path) {
        Some(extension) => equals_ignoring_case(extension.as_str(), expected),
        None => false,
    }
}

/// The path of a project file: with the extension of projects.
pub open spec fn as_project(path: Seq<char>) -> Seq<char> {
    if ends_in(path, "focusless"@) {
        path
    } else {
        paths::with_other_extension(path, "focusless"@)
    }
}

/// Gives a path the extension of projects, where it names a file without it.
pub fn ensure_project_extension(path: &str) -> (result: String)
    ensures
        result@ == as_project(path@),
        paths::last_part(path@) is Some && !paths::is_extension_of_stops(path@) ==> ends_in(
            result@,
            "focusless"@,
        ),
{
    proof {
        reveal_strlit("focusless");
        reveal_strlit(".");
    }
    if has_extension(path, "focusless") {
        return text::copied(path);
    }
    let result: String = paths::with_extension(path, "focusless");
    proof {
        if paths::last_part(path@) is Some {
            paths::lemma_extension_behind(paths::stem_of(path@)->0, "focusless"@);
        }
    }
    result
}

/// The form of an exported file by its extension.
pub open spec fn format_by_name(path: Seq<char>) -> Option<ExportFormat> {
    if ends_in(path, "jpg"@) || ends_in(path, "jpeg"@) {
        Some(ExportFormat::Jpeg { quality: 92 })
    } else if ends_in(path, "png"@) {
        Some(ExportFormat::Png)
    } else if ends_in(path, "webp"@) {
        Some(ExportFormat::WebP { quality: 90 })
    } else {
        None
    }
}

pub fn export_format(path: &str) -> (format: Option<ExportFormat>)
    ensures
        format == format_by_name(path@),
{
    if has_extension(path, "jpg") || has_extension(path, "jpeg") {
        Some(ExportFormat::Jpeg { quality: 92 })
    } else if has_extension(path, "png") {
        Some(ExportFormat::Png)
    } else if has_extension(path, "webp") {
        Some(ExportFormat::WebP { quality: 90 })
    } else {
        None
    }
}

} // verus!
