//! Fingerprints of source images, made of samples of their bytes.

use vstd::arithmetic::power::*;
use vstd::prelude::*;

use crate::document::values::{SourceFingerprint, SourceReference};
use crate::storage::sample_laws;

verus! {

/// How many bytes are read from either end of a file.
pub const FINGERPRINT_CHUNK_LEN: u64 = 65536;

/// A stretch of a file.
#[derive(Clone, Copy, Debug, PartialEq, Eq, Structural)]
pub struct Stretch {
    pub offset: u64,
    pub length: u64,
}

/// Which stretches of a file are sampled.
#[derive(Clone, Copy, Debug, PartialEq, Eq, Structural)]
pub struct SamplePlan {
    pub first: Stretch,
    pub last: Option<Stretch>,
}

/// The stretches of a file of a length: the first chunk, and the last one of a
/// file that is longer than that.
pub open spec fn planned_samples(byte_len: u64) -> SamplePlan {
    if byte_len <= FINGERPRINT_CHUNK_LEN {
        SamplePlan { first: Stretch { offset: 0, length: byte_len }, last: None }
    } else {
        SamplePlan {
            first: Stretch { offset: 0, length: FINGERPRINT_CHUNK_LEN },
            last: Some(
                Stretch {
                    offset: (byte_len - FINGERPRINT_CHUNK_LEN) as u64,
                    length: FINGERPRINT_CHUNK_LEN,
                },
            ),
        }
    }
}

/// Plans which stretches of a file to sample.
pub fn plan_samples(byte_len: u64) -> (plan: SamplePlan)
    ensures
        plan == planned_samples(byte_len),
        sample_laws::samples_both_ends(plan, byte_len as int),
{
    proof {
        sample_laws::both_ends_are_sampled(byte_len);
    }
    if byte_len <= FINGERPRINT_CHUNK_LEN {
        SamplePlan { first: Stretch { offset: 0, length: byte_len }, last: None }
    } else {
        SamplePlan {
            first: Stretch { offset: 0, length: FINGERPRINT_CHUNK_LEN },
            last: Some(
                Stretch {
                    offset: byte_len - FINGERPRINT_CHUNK_LEN,
                    length: FINGERPRINT_CHUNK_LEN,
                },
            ),
        }
    }
}

/// The BLAKE3 hash of some bytes, in hexadecimal digits.
pub uninterp spec fn blake3_digits(bytes: Seq<u8>) -> Seq<char>;

/// Whether a character is a lower-case hexadecimal digit.
pub open spec fn is_hex_digit(c: char) -> bool {
    '0' <= c <= '9' || 'a' <= c <= 'f'
}

/// Calls `blake3::hash` and `Hash::to_hex`: a hash of 32 bytes, two digits
/// for each.
#[verifier::external_body]
pub(crate) fn blake3_hex(bytes: &Vec<u8>) -> (digits: String)
    ensures
        digits@ == blake3_digits(bytes@),
        digits@.len() == 64,
        forall|i: int| 0 <= i < 64 ==> is_hex_digit(#[trigger] digits@[i]),
{
    blake3::hash(bytes).to_hex().to_string()
}

/// The eight bytes of a number, the lowest first.
pub open spec fn little_endian(number: u64) -> Seq<u8> {
    Seq::new(8, |i: int| ((number as int / pow(256, i as nat)) % 256) as u8)
}

fn push_little_endian(number: u64, bytes: &mut Vec<u8>)
    ensures
        final(bytes)@ == old(bytes)@ + little_endian(number),
{
    let mut rest: u64 = number;
    let mut i: usize = 0;
    let ghost start = bytes@;
    proof {
        lemma_pow0(256);
    }
    while i < 8
        invariant
            i <= 8,
            rest == number as int / pow(256, i as nat),
            bytes@ == start + little_endian(number).take(i as int),
        decreases 8 - i,
    {
        bytes.push((rest % 256) as u8);
        proof {
            lemma_pow_positive(256, i as nat);
            lemma_pow_adds(256, i as nat, 1);
            lemma_pow1(256);
            vstd::arithmetic::div_mod::lemma_div_denominator(
                number as int,
                pow(256, i as nat),
                256,
            );
        }
        rest = rest / 256;
        i = i + 1;
        assert(bytes@ =~= start + little_endian(number).take(i as int));
    }
    assert(little_endian(number).take(8) =~= little_endian(number));
}

/// The bytes that a fingerprint is taken of: the length, and the samples.
pub open spec fn sampled_bytes(byte_len: u64, first: Seq<u8>, last: Seq<u8>) -> Seq<u8> {
    little_endian(byte_len) + first + last
}

/// What identifies a source image, from its length, its samples and the time
/// of its last change. `last` is empty where only one stretch is sampled.
pub fn fingerprint_source(
    byte_len: u64,
    first: &Vec<u8>,
    last: &Vec<u8>,
    modified_unix_ms: Option<u64>,
    width: u32,
    height: u32,
) -> (fingerprint: SourceFingerprint)
    ensures
        fingerprint.byte_len == byte_len,
        fingerprint.modified_unix_ms == modified_unix_ms,
        fingerprint.sample_blake3@ == blake3_digits(sampled_bytes(byte_len, first@, last@)),
        fingerprint.sample_blake3@.len() == 64,
        forall|i: int| 0 <= i < 64 ==> is_hex_digit(#[trigger] fingerprint.sample_blake3@[i]),
        fingerprint.width == width,
        fingerprint.height == height,
{
    let mut bytes: Vec<u8> = Vec::new();
    push_little_endian(byte_len, &mut bytes);
    push_all(first, &mut bytes);
    push_all(last, &mut bytes);
    assert(bytes@ =~= sampled_bytes(byte_len, first@, last@));
    SourceFingerprint {
        byte_len,
        modified_unix_ms,
        sample_blake3: blake3_hex(&bytes),
        width,
        height,
    }
}

fn push_all(source: &Vec<u8>, bytes: &mut Vec<u8>)
    ensures
        final(bytes)@ == old(bytes)@ + source@,
{
    let mut i: usize = 0;
    let ghost start = bytes@;
    while i < source.len()
        invariant
            i <= source.len(),
            bytes@ == start + source@.take(i as int),
        decreases source.len() - i,
    {
        bytes.push(source[i]);
        i = i + 1;
        assert(bytes@ =~= start + source@.take(i as int));
    }
    assert(source@.take(source.len() as int) =~= source@);
}

/// Whether two fingerprints identify the same content.
pub open spec fn same_fingerprint(a: SourceFingerprint, b: SourceFingerprint) -> bool {
    &&& a.byte_len == b.byte_len
    &&& a.modified_unix_ms == b.modified_unix_ms
    &&& a.sample_blake3@ == b.sample_blake3@
    &&& a.width == b.width
    &&& a.height == b.height
}

fn equal_fingerprints(a: &SourceFingerprint, b: &SourceFingerprint) -> (result: bool)
    ensures
        result == same_fingerprint(*a, *b),
{
    let same_time: bool = match (a.modified_unix_ms, b.modified_unix_ms) {
        (Some(x), Some(y)) => x == y,
        (None, None) => true,
        _ => false,
    };
    same_time && a.byte_len == b.byte_len && a.sample_blake3 == b.sample_blake3 && a.width
        == b.width && a.height == b.height
}

/// What has become of a source image.
#[derive(Clone, Debug, PartialEq, Eq)]
pub enum SourceStatus {
    Current,
    Missing,
    Changed { expected: SourceFingerprint, actual: SourceFingerprint },
}

/// Compares a source image with what a project says of it. `found` is the
/// fingerprint of the file at its place, if there is one.
pub fn inspect_source(source: &SourceReference, found: Option<SourceFingerprint>) -> (status:
    SourceStatus)
    ensures
        status == match found {
            None => SourceStatus::Missing,
            Some(actual) => if same_fingerprint(actual, source.fingerprint) {
                SourceStatus::Current
            } else {
                SourceStatus::Changed { expected: source.fingerprint, actual }
            },
        },
{
    match found {
        None => SourceStatus::Missing,
        Some(actual) => {
            if equal_fingerprints(&actual, &source.fingerprint) {
                SourceStatus::Current
            } else {
                SourceStatus::Changed { expected: source.fingerprint.duplicate(), actual }
            }
        },
    }
}

} // verus!
