//! Lists of operations. The last operation of a kind is the one that counts.

use vstd::prelude::*;

use crate::document::curve::ToneCurve;
use crate::document::operation::{Kind, Operation};
use crate::document::values::{CropRect, FrameColor, ShadowsHighlights, WhiteBalance};
use crate::number::constants;
use crate::number::scalar::Scalar;

verus! {

/// The place of the last operation of a kind, or -1.
pub open spec fn last_of(operations: Seq<Operation>, kind: Kind) -> int
    decreases operations.len(),
{
    if operations.len() == 0 {
        -1
    } else if operations.last().kind() == kind {
        operations.len() - 1
    } else {
        last_of(operations.drop_last(), kind)
    }
}

/// The place of the first operation of a kind, or -1.
pub open spec fn first_of(operations: Seq<Operation>, kind: Kind) -> int
    decreases operations.len(),
{
    if operations.len() == 0 {
        -1
    } else if first_of(operations.drop_last(), kind) >= 0 {
        first_of(operations.drop_last(), kind)
    } else if operations.last().kind() == kind {
        operations.len() - 1
    } else {
        -1
    }
}

/// Whether a list holds an operation of a kind.
pub open spec fn has(operations: Seq<Operation>, kind: Kind) -> bool {
    exists|i: int| 0 <= i < operations.len() && (#[trigger] operations[i]).kind() == kind
}

/// The operation of a kind that counts.
pub open spec fn current(operations: Seq<Operation>, kind: Kind) -> Option<Operation> {
    let i = last_of(operations, kind);
    if i >= 0 {
        Some(operations[i])
    } else {
        None
    }
}

/// The list with an operation in the place of the one that counts. Where
/// there is none, the operation goes to the end; straightening goes behind
/// the first rotation, or to the front.
pub open spec fn with(operations: Seq<Operation>, operation: Operation) -> Seq<Operation> {
    let i = last_of(operations, operation.kind());
    if i >= 0 {
        operations.update(i, operation)
    } else if operation is Straighten {
        operations.insert(first_of(operations, Kind::Rotate) + 1, operation)
    } else {
        operations.push(operation)
    }
}

/// Whether every operation is in range.
pub open spec fn all_valid(operations: Seq<Operation>) -> bool {
    forall|i: int| 0 <= i < operations.len() ==> (#[trigger] operations[i]).valid()
}

/// Whether two lists hold equal operations in the same order.
pub open spec fn same_operations(a: Seq<Operation>, b: Seq<Operation>) -> bool {
    a.len() == b.len() && forall|i: int| 0 <= i < a.len() ==> (#[trigger] a[i]).same(b[i])
}

/// The operations of an untouched photo.
pub open spec fn untouched() -> Seq<Operation> {
    let zero = Scalar { bits: constants::ZERO };
    seq![
        Operation::Rotate { quarter_turns: 0 },
        Operation::Straighten { degrees: zero },
        Operation::Crop { rect: CropRect::whole() },
        Operation::WhiteBalance { adjustment: WhiteBalance::neutral() },
        Operation::Exposure { ev: zero },
        Operation::Contrast { amount: zero },
        Operation::ShadowsHighlights { adjustment: ShadowsHighlights::neutral() },
        Operation::ToneCurve { curve: ToneCurve::straight() },
        Operation::Saturation { amount: zero },
        Operation::Vignette { strength: zero },
        Operation::Sharpness { amount: zero },
        Operation::Frame { width_pct: zero, color: FrameColor::plain_white() },
    ]
}

/// What `last_of` finds.
pub proof fn lemma_last_of(operations: Seq<Operation>, kind: Kind)
    ensures
        -1 <= last_of(operations, kind) < operations.len(),
        last_of(operations, kind) >= 0 ==> operations[last_of(operations, kind)].kind() == kind,
        forall|i: int|
            last_of(operations, kind) < i < operations.len() ==> (#[trigger] operations[i]).kind()
                != kind,
    decreases operations.len(),
{
    if operations.len() > 0 && operations.last().kind() != kind {
        let shorter = operations.drop_last();
        lemma_last_of(shorter, kind);
        assert forall|i: int| last_of(operations, kind) < i < operations.len() implies (
        #[trigger] operations[i]).kind() != kind by {
            if i < shorter.len() {
                assert(shorter[i] == operations[i]);
            }
        }
    }
}

/// The place that `last_of` must find.
pub proof fn lemma_last_is(operations: Seq<Operation>, kind: Kind, place: int)
    requires
        -1 <= place < operations.len(),
        place >= 0 ==> operations[place].kind() == kind,
        forall|i: int|
            place < i < operations.len() ==> (#[trigger] operations[i]).kind() != kind,
    ensures
        last_of(operations, kind) == place,
{
    lemma_last_of(operations, kind);
    let found = last_of(operations, kind);
    if found < place {
        assert(operations[place].kind() != kind);
    } else if place < found {
        assert(operations[found].kind() != kind);
    }
}

/// What `first_of` finds.
pub proof fn lemma_first_of(operations: Seq<Operation>, kind: Kind)
    ensures
        -1 <= first_of(operations, kind) < operations.len(),
        first_of(operations, kind) >= 0 ==> operations[first_of(operations, kind)].kind() == kind,
        first_of(operations, kind) >= 0 ==> forall|i: int|
            0 <= i < first_of(operations, kind) ==> (#[trigger] operations[i]).kind() != kind,
        first_of(operations, kind) < 0 ==> forall|i: int|
            0 <= i < operations.len() ==> (#[trigger] operations[i]).kind() != kind,
    decreases operations.len(),
{
    if operations.len() > 0 {
        let shorter = operations.drop_last();
        lemma_first_of(shorter, kind);
        let f = first_of(shorter, kind);
        assert forall|i: int|
            0 <= i < shorter.len() && (f < 0 || i < f) implies (#[trigger] operations[i]).kind()
            != kind by {
            assert(shorter[i] == operations[i]);
        }
    }
}

/// Setting an operation makes it the one of its kind that counts, and leaves
/// every other kind as it was.
pub proof fn setting_one_kind_leaves_the_others(
    operations: Seq<Operation>,
    operation: Operation,
    kind: Kind,
)
    ensures
        current(with(operations, operation), kind) == if kind == operation.kind() {
            Some(operation)
        } else {
            current(operations, kind)
        },
{
    let own = operation.kind();
    let i = last_of(operations, own);
    let after = with(operations, operation);
    lemma_last_of(operations, own);
    lemma_last_of(operations, kind);
    let k = last_of(operations, kind);
    if i >= 0 {
        if kind == own {
            lemma_last_is(after, kind, i);
        } else {
            lemma_last_is(after, kind, k);
        }
    } else if operation is Straighten {
        lemma_first_of(operations, Kind::Rotate);
        let place = first_of(operations, Kind::Rotate) + 1;
        if kind == own {
            assert forall|j: int| place < j < after.len() implies (#[trigger] after[j]).kind()
                != kind by {
                assert(after[j] == operations[j - 1]);
            }
            lemma_last_is(after, kind, place);
        } else {
            let moved = if k >= place {
                k + 1
            } else {
                k
            };
            assert forall|j: int| moved < j < after.len() implies (#[trigger] after[j]).kind()
                != kind by {
                if j > place {
                    assert(after[j] == operations[j - 1]);
                } else if j < place {
                    assert(after[j] == operations[j]);
                }
            }
            if k >= 0 {
                assert(after[moved] == operations[k]);
            }
            lemma_last_is(after, kind, moved);
        }
    } else {
        if kind == own {
            lemma_last_is(after, kind, operations.len() as int);
        } else {
            lemma_last_is(after, kind, k);
        }
    }
}

/// Setting an operation that is in range keeps a list in range.
pub proof fn setting_keeps_validity(operations: Seq<Operation>, operation: Operation)
    requires
        all_valid(operations),
        operation.valid(),
    ensures
        all_valid(with(operations, operation)),
{
    let after = with(operations, operation);
    lemma_last_of(operations, operation.kind());
    lemma_first_of(operations, Kind::Rotate);
    let place = first_of(operations, Kind::Rotate) + 1;
    assert forall|i: int| 0 <= i < after.len() implies (#[trigger] after[i]).valid() by {
        if last_of(operations, operation.kind()) < 0 && operation is Straighten {
            if i > place {
                assert(after[i] == operations[i - 1]);
            }
        }
    }
}

/// Finds the last operation of a kind.
pub fn find_last(operations: &Vec<Operation>, kind: Kind) -> (place: Option<usize>)
    ensures
        match place {
            Some(i) => i == last_of(operations@, kind),
            None => last_of(operations@, kind) == -1,
        },
        place matches Some(i) ==> i < operations.len(),
{
    let mut i: usize = operations.len();
    while i > 0
        invariant
            i <= operations.len(),
            forall|j: int| i <= j < operations.len() ==> (#[trigger] operations[j]).kind() != kind,
        decreases i,
    {
        if operations[i - 1].which() == kind {
            proof {
                lemma_last_is(operations@, kind, i - 1);
            }
            return Some(i - 1);
        }
        i = i - 1;
    }
    proof {
        lemma_last_is(operations@, kind, -1);
    }
    None
}

/// Finds the first operation of a kind.
pub fn find_first(operations: &Vec<Operation>, kind: Kind) -> (place: Option<usize>)
    ensures
        match place {
            Some(i) => i == first_of(operations@, kind),
            None => first_of(operations@, kind) == -1,
        },
        place matches Some(i) ==> i < operations.len(),
{
    let mut i: usize = 0;
    proof {
        lemma_first_of(operations@, kind);
    }
    while i < operations.len()
        invariant
            i <= operations.len(),
            forall|j: int| 0 <= j < i ==> (#[trigger] operations[j]).kind() != kind,
            first_of(operations@, kind) >= 0 ==> operations[first_of(operations@, kind)].kind()
                == kind,
            first_of(operations@, kind) >= 0 ==> forall|j: int|
                0 <= j < first_of(operations@, kind) ==> (#[trigger] operations[j]).kind() != kind,
            first_of(operations@, kind) < 0 ==> forall|j: int|
                0 <= j < operations.len() ==> (#[trigger] operations[j]).kind() != kind,
            -1 <= first_of(operations@, kind) < operations.len(),
        decreases operations.len() - i,
    {
        if operations[i].which() == kind {
            return Some(i);
        }
        i = i + 1;
    }
    None
}

/// Puts an operation in the place of the one that counts.
pub fn set(operations: &mut Vec<Operation>, operation: Operation)
    ensures
        final(operations)@ == with(old(operations)@, operation),
{
    match find_last(operations, operation.which()) {
        Some(i) => {
            operations.set(i, operation);
        },
        None => {
            if let Operation::Straighten { .. } = operation {
                let place: usize = match find_first(operations, Kind::Rotate) {
                    Some(i) => i + 1,
                    None => 0,
                };
                operations.insert(place, operation);
            } else {
                operations.push(operation);
            }
        },
    }
}

/// The operations of an untouched photo.
pub fn default_operations() -> (operations: Vec<Operation>)
    ensures
        operations@ == untouched(),
{
    let zero: Scalar = Scalar { bits: constants::ZERO };
    let mut operations: Vec<Operation> = Vec::new();
    operations.push(Operation::Rotate { quarter_turns: 0 });
    operations.push(Operation::Straighten { degrees: zero });
    operations.push(Operation::Crop { rect: CropRect::full() });
    operations.push(Operation::WhiteBalance { adjustment: WhiteBalance::identity() });
    operations.push(Operation::Exposure { ev: zero });
    operations.push(Operation::Contrast { amount: zero });
    operations.push(Operation::ShadowsHighlights { adjustment: ShadowsHighlights::identity() });
    operations.push(Operation::ToneCurve { curve: ToneCurve::identity() });
    operations.push(Operation::Saturation { amount: zero });
    operations.push(Operation::Vignette { strength: zero });
    operations.push(Operation::Sharpness { amount: zero });
    operations.push(Operation::Frame { width_pct: zero, color: FrameColor::white() });
    assert(operations@ =~= untouched());
    operations
}

/// Compares two lists.
pub fn equal_operations(a: &Vec<Operation>, b: &Vec<Operation>) -> (result: bool)
    ensures
        result == same_operations(a@, b@),
{
    if a.len() != b.len() {
        return false;
    }
    let mut i: usize = 0;
    while i < a.len()
        invariant
            i <= a.len(),
            a.len() == b.len(),
            forall|j: int| 0 <= j < i ==> (#[trigger] a[j]).same(b[j]),
        decreases a.len() - i,
    {
        if !a[i].equals(&b[i]) {
            return false;
        }
        i = i + 1;
    }
    true
}

/// A copy of a list.
pub fn copied(operations: &Vec<Operation>) -> (result: Vec<Operation>)
    ensures
        result@ == operations@,
{
    let mut result: Vec<Operation> = Vec::new();
    let mut i: usize = 0;
    while i < operations.len()
        invariant
            i <= operations.len(),
            result@ == operations@.take(i as int),
        decreases operations.len() - i,
    {
        result.push(operations[i]);
        i = i + 1;
        assert(result@ =~= operations@.take(i as int));
    }
    assert(result@ =~= operations@);
    result
}

} // verus!
