//! What is left of what the user types.

use vstd::prelude::*;

use crate::document::inside_laws;
use crate::document::turn_laws;
use crate::number::laws;
use crate::number::scalar::Scalar;
use crate::session::input;

verus! {

/// Trimming takes white space away at both ends and nothing else: what is left
/// neither begins nor ends with white space.
pub proof fn only_outer_space_is_taken_away(words: Seq<char>) -> (start: int)
    ensures
        ({
            let rest = input::without_outer_space(words);
            &&& 0 <= start
            &&& start + rest.len() <= words.len()
            &&& rest == words.subrange(start, start + rest.len())
            &&& forall|i: int|
                0 <= i < words.len() && !(start <= i < start + rest.len())
                    ==> input::is_white_space(#[trigger] words[i])
            &&& rest.len() > 0 ==> !input::is_white_space(rest[0]) && !input::is_white_space(
                rest.last(),
            )
        }),
    decreases words.len(),
{
    let rest = input::without_outer_space(words);
    if words.len() == 0 {
        assert(rest =~= words.subrange(0, 0));
        0
    } else if input::is_white_space(words[0]) {
        let start = only_outer_space_is_taken_away(words.drop_first());
        let found = start + 1;
        assert(rest =~= words.subrange(found, found + rest.len()));
        assert forall|i: int|
            0 <= i < words.len() && !(found <= i < found + rest.len()) implies input::is_white_space(
            #[trigger] words[i],
        ) by {
            if i > 0 {
                assert(words[i] == words.drop_first()[i - 1]);
            }
        }
        found
    } else if input::is_white_space(words.last()) {
        let start = only_outer_space_is_taken_away(words.drop_last());
        assert(rest =~= words.subrange(start, start + rest.len()));
        assert forall|i: int|
            0 <= i < words.len() && !(start <= i < start + rest.len()) implies input::is_white_space(
            #[trigger] words[i],
        ) by {
            if i < words.len() - 1 {
                assert(words[i] == words.drop_last()[i]);
            }
        }
        start
    } else {
        assert(rest =~= words.subrange(0, rest.len() as int));
        0
    }
}

/// A plain number keeps its digits and its sign; its comma becomes a full
/// stop.
pub proof fn a_comma_becomes_a_full_stop(words: Seq<char>, i: int)
    requires
        input::is_plain_number(words),
        0 <= i < words.len(),
    ensures
        input::with_full_stops(words).len() == words.len(),
        words[i] == ',' ==> input::with_full_stops(words)[i] == '.',
        words[i] != ',' ==> input::with_full_stops(words)[i] == words[i],
        !input::with_full_stops(words).contains(','),
{
}

/// Two texts are equal but for the case of plain letters where each letter of
/// the one is the same letter of the other, large or small.
pub proof fn letters_are_equal_in_either_case(a: Seq<char>, b: Seq<char>)
    ensures
        input::same_but_for_case(a, b) <==> a.len() == b.len() && forall|i: int|
            0 <= i < a.len() ==> {
                let (x, y) = (#[trigger] a[i], b[i]);
                ||| x == y
                ||| 'A' <= x <= 'Z' && y as int == x as int + 32
                ||| 'A' <= y <= 'Z' && x as int == y as int + 32
            },
{
    let (low_a, low_b) = (input::all_lowered(a), input::all_lowered(b));
    if input::same_but_for_case(a, b) {
        assert(low_a.len() == low_b.len());
        assert forall|i: int| 0 <= i < a.len() implies {
            let (x, y) = (#[trigger] a[i], b[i]);
            ||| x == y
            ||| 'A' <= x <= 'Z' && y as int == x as int + 32
            ||| 'A' <= y <= 'Z' && x as int == y as int + 32
        } by {
            assert(low_a[i] == low_b[i]);
        }
    }
    if a.len() == b.len() && forall|i: int|
        0 <= i < a.len() ==> {
            let (x, y) = (#[trigger] a[i], b[i]);
            ||| x == y
            ||| 'A' <= x <= 'Z' && y as int == x as int + 32
            ||| 'A' <= y <= 'Z' && x as int == y as int + 32
        } {
        assert forall|i: int| 0 <= i < a.len() implies low_a[i] == low_b[i] by {
            let (x, y) = (a[i], b[i]);
        }
        assert(low_a =~= low_b);
    }
}

/// A number that was typed is held within its range.
pub proof fn a_submitted_number_is_held(number: Scalar, minimum: Scalar, maximum: Scalar)
    requires
        number.finite(),
        minimum.finite(),
        maximum.finite(),
        laws::exact(minimum) <= laws::exact(maximum),
    ensures
        laws::exact(number.clamped(minimum, maximum)) == inside_laws::held(
            laws::exact(number),
            laws::exact(minimum),
            laws::exact(maximum),
        ),
{
    turn_laws::lemma_clamped(number, minimum, maximum);
}

} // verus!
