//! What holds of the samples of a file.

use vstd::arithmetic::div_mod::*;
use vstd::arithmetic::power::*;
use vstd::prelude::*;

use crate::storage::fingerprint;
use crate::storage::fingerprint::SamplePlan;

verus! {

/// Whether samples are taken of both ends of a file: the first begins where
/// the file does and the last ends where the file does, neither is longer than
/// 65536 bytes, and nothing is left out of a file of twice that length.
pub open spec fn samples_both_ends(plan: SamplePlan, byte_len: int) -> bool {
    &&& plan.first.offset == 0
    &&& plan.first.length <= 65536
    &&& match plan.last {
        None => plan.first.length == byte_len,
        Some(last) => {
            &&& plan.first.length == 65536
            &&& last.length == 65536
            &&& last.offset > 0
            &&& last.offset + last.length == byte_len
        },
    }
}

/// The samples are taken of both ends of a file.
pub proof fn both_ends_are_sampled(byte_len: u64)
    ensures
        samples_both_ends(fingerprint::planned_samples(byte_len), byte_len as int),
{
}

/// The number that some bytes stand for, the lowest first.
pub open spec fn number_of(bytes: Seq<u8>) -> int
    decreases bytes.len(),
{
    if bytes.len() == 0 {
        0
    } else {
        bytes[0] + 256 * number_of(bytes.drop_first())
    }
}

/// The bytes of a number from one on stand for what is left of it.
proof fn lemma_rest(number: u64, from: nat)
    requires
        from <= 8,
    ensures
        number_of(fingerprint::little_endian(number).skip(from as int)) == number as int / pow(
            256,
            from,
        ),
    decreases 8 - from,
{
    let bytes = fingerprint::little_endian(number);
    let rest = bytes.skip(from as int);
    if from == 8 {
        lemma_pow8();
        assert(number as int / pow(256, 8) == 0) by (nonlinear_arith)
            requires
                pow(256, 8) == 0x1_0000_0000_0000_0000,
                0 <= number < 0x1_0000_0000_0000_0000,
        ;
    } else {
        lemma_rest(number, from + 1);
        assert(rest.drop_first() =~= bytes.skip((from + 1) as int));
        lemma_pow_positive(256, from);
        lemma_pow_adds(256, from, 1);
        lemma_pow1(256);
        lemma_div_denominator(number as int, pow(256, from), 256);
        let left = number as int / pow(256, from);
        lemma_fundamental_div_mod(left, 256);
        lemma_div_pos_is_pos(number as int, pow(256, from));
        lemma_mod_bound(left, 256);
    }
}

proof fn lemma_pow8()
    ensures
        pow(256, 8) == 0x1_0000_0000_0000_0000,
{
    reveal_with_fuel(pow, 9);
}

/// The bytes of a length give the length back, so files of different lengths
/// are told apart.
pub proof fn the_bytes_of_a_length_give_it_back(number: u64)
    ensures
        number_of(fingerprint::little_endian(number)) == number,
        fingerprint::little_endian(number).len() == 8,
{
    lemma_rest(number, 0);
    lemma_pow0(256);
    assert(fingerprint::little_endian(number).skip(0) =~= fingerprint::little_endian(number));
    lemma_div_basics(number as int);
}

/// Samples of files that differ in length, or in what was sampled of equally
/// long parts, are told apart.
pub proof fn sampled_bytes_tell_files_apart(
    byte_len: u64,
    first: Seq<u8>,
    last: Seq<u8>,
    other_len: u64,
    other_first: Seq<u8>,
    other_last: Seq<u8>,
)
    requires
        fingerprint::sampled_bytes(byte_len, first, last) == fingerprint::sampled_bytes(
            other_len,
            other_first,
            other_last,
        ),
    ensures
        byte_len == other_len,
        first + last == other_first + other_last,
        first.len() == other_first.len() ==> first == other_first && last == other_last,
{
    let all = fingerprint::sampled_bytes(byte_len, first, last);
    the_bytes_of_a_length_give_it_back(byte_len);
    the_bytes_of_a_length_give_it_back(other_len);
    assert(all.take(8) =~= fingerprint::little_endian(byte_len));
    assert(all.take(8) =~= fingerprint::little_endian(other_len));
    assert(all.skip(8) =~= first + last);
    assert(all.skip(8) =~= other_first + other_last);
    if first.len() == other_first.len() {
        let n = first.len() as int;
        assert((first + last).take(n) =~= first);
        assert((other_first + other_last).take(n) =~= other_first);
        assert((first + last).skip(n) =~= last);
        assert((other_first + other_last).skip(n) =~= other_last);
    }
}

} // verus!
