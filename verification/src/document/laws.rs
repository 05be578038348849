//! What holds of documents whatever is done to them.

use vstd::arithmetic::power2::*;
use vstd::prelude::*;

use crate::document::crop_laws;
use crate::document::curve::ToneCurve;
use crate::document::history;
use crate::document::history::{Step, Timeline};
use crate::document::list;
use crate::document::operation::{Kind, Operation};
use crate::document::project;
use crate::document::project::DocumentView;
use crate::document::values;
use crate::document::values::{CropRect, SourceReference};
use crate::number::constants;
use crate::number::laws;
use crate::number::rounding;
use crate::number::scalar::Scalar;

verus! {

/// A power of two and a significand make the exact value of a number.
proof fn lemma_exact(bits: u32, k: nat, q: nat)
    requires
        bits < 0x7f80_0000,
        q < 0x100_0000,
        k == 0 || q >= 0x80_0000,
        bits == k * 0x80_0000 + q,
    ensures
        laws::exact(Scalar { bits }) == q * pow2(k),
        (Scalar { bits }).finite(),
{
    lemma2_to64();
    rounding::lemma_encode(k, q, 24);
}

/// The sum of zero and a number is that number.
pub proof fn adding_zero_changes_nothing(a: Scalar)
    requires
        a.finite(),
    ensures
        (Scalar { bits: constants::ZERO }).sum(a).same(a),
{
    lemma_exact(constants::ZERO, 0, 0);
    laws::sum_is_nearest(Scalar { bits: constants::ZERO }, a);
    laws::nearest_to_itself(a);
}

/// The whole image is a crop that is in range.
proof fn lemma_whole_crop_is_valid()
    ensures
        CropRect::whole().valid(),
{
    let zero = Scalar { bits: constants::ZERO };
    let one = Scalar { bits: constants::ONE };
    let tiny = Scalar { bits: constants::TINY };
    laws::sum_is_nearest(zero, one);
    laws::sum_is_nearest(one, tiny);
    laws::order_is_exact(zero, tiny);
    assert(zero.at_most(tiny));
    laws::nearest_is_monotone(
        laws::exact(zero) + laws::exact(one),
        laws::exact(one) + laws::exact(tiny),
    );
}

/// The distance between two numbers whose difference is a number.
proof fn lemma_held_difference(a: Scalar, b: Scalar, c: Scalar)
    requires
        a.finite(),
        b.finite(),
        c.finite(),
        laws::exact(a) - laws::exact(b) == laws::exact(c),
    ensures
        a.difference(b).same(c),
{
    laws::negation_is_exact(b);
    laws::sum_is_nearest(a, b.negated());
    laws::nearest_to_itself(c);
}

/// The straight curve is in range.
proof fn lemma_straight_curve_is_valid()
    ensures
        ToneCurve::straight().valid(),
{
    let quarter = Scalar { bits: constants::QUARTER };
    let half = Scalar { bits: constants::HALF };
    let most = Scalar { bits: constants::THREE_QUARTERS };
    let one = Scalar { bits: constants::ONE };
    lemma_exact(constants::QUARTER, 124, 0x80_0000);
    lemma_exact(constants::HALF, 125, 0x80_0000);
    lemma_exact(constants::THREE_QUARTERS, 125, 0xc0_0000);
    lemma_exact(constants::ONE, 126, 0x80_0000);
    lemma_pow2_unfold(125);
    lemma_pow2_unfold(126);
    lemma_held_difference(half, quarter, quarter);
    lemma_held_difference(most, half, quarter);
    lemma_held_difference(one, most, quarter);
}

/// The operations of an untouched photo are in range.
pub proof fn untouched_is_valid()
    ensures
        list::all_valid(list::untouched()),
{
    lemma_whole_crop_is_valid();
    lemma_straight_curve_is_valid();
}

/// A step that can be taken back and made again without leaving the range.
pub open spec fn step_is_sound(step: Step) -> bool {
    step.whole ==> list::all_valid(step.before) && list::all_valid(step.after)
}

/// A valid document whose history leads to valid documents only.
pub open spec fn sound(document: DocumentView) -> bool {
    &&& document.valid()
    &&& forall|i: int|
        0 <= i < document.history.undo.len() ==> step_is_sound(
            #[trigger] document.history.undo[i],
        )
    &&& forall|i: int|
        0 <= i < document.history.redo.len() ==> step_is_sound(
            #[trigger] document.history.redo[i],
        )
}

/// A new document is sound.
pub proof fn a_new_document_is_sound(source: SourceReference)
    ensures
        sound(DocumentView::fresh(source)),
        DocumentView::fresh(source).history.bounded(),
{
    untouched_is_valid();
}

/// Setting an operation that is in range keeps a document sound.
pub proof fn setting_keeps_a_document_sound(document: DocumentView, operation: Operation)
    requires
        sound(document),
        operation.valid(),
    ensures
        sound(document.set(operation)),
{
    list::setting_keeps_validity(document.operations, operation);
}

/// A change that is committed keeps a document sound.
pub proof fn committing_keeps_a_document_sound(
    document: DocumentView,
    before: Operation,
    after: Operation,
    changed: bool,
)
    requires
        sound(document),
        after.valid(),
    ensures
        sound(document.committed(before, after, changed)),
{
    list::setting_keeps_validity(document.operations, after);
    lemma_pushed_is_sound(document, Step::single(before, after));
}

proof fn lemma_pushed_is_sound(document: DocumentView, step: Step)
    requires
        sound(document),
        step_is_sound(step),
    ensures
        forall|i: int|
            0 <= i < document.history.pushed(step).undo.len() ==> step_is_sound(
                #[trigger] document.history.pushed(step).undo[i],
            ),
        document.history.pushed(step).redo.len() == 0,
{
    let grown = document.history.undo.push(step);
    assert forall|i: int| 0 <= i < document.history.pushed(step).undo.len() implies step_is_sound(
        #[trigger] document.history.pushed(step).undo[i],
    ) by {
        let drop = grown.len() - document.history.pushed(step).undo.len();
        assert(document.history.pushed(step).undo[i] == grown[i + drop]);
        if i + drop < document.history.undo.len() {
            assert(grown[i + drop] == document.history.undo[i + drop]);
        }
    }
}

/// Setting only what is in range keeps a list in range.
proof fn lemma_all_tried_is_valid(operations: Seq<Operation>, changes: Seq<Operation>)
    requires
        list::all_valid(operations),
    ensures
        list::all_valid(history::all_tried(operations, changes)),
    decreases changes.len(),
{
    if changes.len() > 0 {
        lemma_all_tried_is_valid(operations, changes.drop_last());
        let before = history::all_tried(operations, changes.drop_last());
        if changes.last().valid() {
            list::setting_keeps_validity(before, changes.last());
        }
    }
}

/// Undoing keeps a document sound.
pub proof fn undoing_keeps_a_document_sound(document: DocumentView)
    requires
        sound(document),
        document.history.undo.len() > 0,
    ensures
        sound(document.undone()),
{
    let step = document.history.undo.last();
    assert(step_is_sound(step));
    if !step.whole {
        lemma_all_tried_is_valid(document.operations, step.before);
    }
    assert forall|i: int| 0 <= i < document.undone().history.redo.len() implies step_is_sound(
        #[trigger] document.undone().history.redo[i],
    ) by {
        if i < document.history.redo.len() {
            assert(document.undone().history.redo[i] == document.history.redo[i]);
        }
    }
    assert forall|i: int| 0 <= i < document.undone().history.undo.len() implies step_is_sound(
        #[trigger] document.undone().history.undo[i],
    ) by {
        assert(document.undone().history.undo[i] == document.history.undo[i]);
    }
}

/// Making a command again keeps a document sound.
pub proof fn redoing_keeps_a_document_sound(document: DocumentView)
    requires
        sound(document),
        document.history.redo.len() > 0,
    ensures
        sound(document.redone()),
{
    let step = document.history.redo.last();
    assert(step_is_sound(step));
    if !step.whole {
        lemma_all_tried_is_valid(document.operations, step.after);
    }
    assert forall|i: int| 0 <= i < document.redone().history.undo.len() implies step_is_sound(
        #[trigger] document.redone().history.undo[i],
    ) by {
        if i < document.history.undo.len() {
            assert(document.redone().history.undo[i] == document.history.undo[i]);
        }
    }
    assert forall|i: int| 0 <= i < document.redone().history.redo.len() implies step_is_sound(
        #[trigger] document.redone().history.redo[i],
    ) by {
        assert(document.redone().history.redo[i] == document.history.redo[i]);
    }
}

/// Taking everything back keeps a document sound, and undoing it brings every
/// operation back.
pub proof fn restoring_can_be_undone(document: DocumentView)
    requires
        sound(document),
    ensures
        sound(document.restored()),
        document.restored().undone().operations == document.operations,
        document.restored().undone().redone() == document.restored(),
{
    untouched_is_valid();
    let step = Step { whole: true, before: document.operations, after: list::untouched() };
    lemma_pushed_is_sound(document, step);
    pushing_keeps_the_newest(document.history, step);
    lemma_undo_redo_lists(document.restored());
}

/// A new command is the newest one to undo, nothing is left to make again,
/// the bound holds, and of the older commands only the oldest go.
pub proof fn pushing_keeps_the_newest(history: Timeline, step: Step)
    ensures
        history.pushed(step).bounded(),
        history.pushed(step).redo.len() == 0,
        history.pushed(step).undo.len() > 0,
        history.pushed(step).undo.last() == step,
        history.pushed(step).undo.drop_last() == history.undo.skip(
            history.undo.len() + 1 - history.pushed(step).undo.len(),
        ),
        history.undo.len() < history::MAX_HISTORY_LEN ==> history.pushed(step).undo
            == history.undo.push(step),
        history.undo.len() >= history::MAX_HISTORY_LEN ==> history.pushed(step).undo.len()
            == history::MAX_HISTORY_LEN,
{
    let grown = history.undo.push(step);
    let kept = history.pushed(step).undo;
    let drop = grown.len() - kept.len();
    assert(kept =~= grown.skip(drop));
    assert(kept.drop_last() =~= history.undo.skip(drop));
    if drop == 0 {
        assert(kept =~= grown);
    }
}

/// Trimming keeps the bound, and changes nothing that is within it.
pub proof fn trimming_is_needed_once(history: Timeline)
    ensures
        history.trimmed().bounded(),
        history.bounded() ==> history.trimmed() == history,
        history.trimmed().trimmed() == history.trimmed(),
{
    let once = history.trimmed();
    assert(once.trimmed().undo =~= once.undo);
    assert(once.trimmed().redo =~= once.redo);
    if history.bounded() {
        assert(once.undo =~= history.undo);
        assert(once.redo =~= history.redo);
    }
}

/// Undoing and redoing keep the bound.
pub proof fn undo_and_redo_keep_the_bound(document: DocumentView)
    requires
        document.history.bounded(),
    ensures
        document.history.undo.len() > 0 ==> document.undone().history.bounded(),
        document.history.redo.len() > 0 ==> document.redone().history.bounded(),
{
}

/// Where a kind is present, setting it changes one place and nothing else.
proof fn lemma_present(operations: Seq<Operation>, operation: Operation, kind: Kind)
    requires
        list::last_of(operations, operation.kind()) >= 0,
    ensures
        list::with(operations, operation) == operations.update(
            list::last_of(operations, operation.kind()),
            operation,
        ),
        list::last_of(list::with(operations, operation), kind) == list::last_of(operations, kind),
{
    let after = list::with(operations, operation);
    list::lemma_last_of(operations, operation.kind());
    list::lemma_last_of(operations, kind);
    list::lemma_last_is(after, kind, list::last_of(operations, kind));
}

/// Setting a kind a second time replaces the first.
pub proof fn the_last_setting_counts(operations: Seq<Operation>, first: Operation, second: Operation)
    requires
        first.kind() == second.kind(),
    ensures
        list::with(list::with(operations, first), second) == list::with(operations, second),
{
    let kind = first.kind();
    let once = list::with(operations, first);
    list::lemma_last_of(operations, kind);
    list::setting_one_kind_leaves_the_others(operations, first, kind);
    let i = list::last_of(operations, kind);
    if i >= 0 {
        lemma_present(operations, first, kind);
        assert(once.update(i, second) =~= operations.update(i, second));
    } else if first is Straighten {
        list::lemma_first_of(operations, Kind::Rotate);
        let place = list::first_of(operations, Kind::Rotate) + 1;
        assert forall|j: int| place < j < once.len() implies (#[trigger] once[j]).kind() != kind by {
            assert(once[j] == operations[j - 1]);
        }
        list::lemma_last_is(once, kind, place);
        assert(once.update(place, second) =~= operations.insert(place, second));
    } else {
        let place = operations.len() as int;
        list::lemma_last_is(once, kind, place);
        assert(once.update(place, second) =~= operations.push(second));
    }
}

/// Setting what counts already changes nothing.
pub proof fn setting_the_current_operation_changes_nothing(
    operations: Seq<Operation>,
    operation: Operation,
)
    requires
        list::current(operations, operation.kind()) == Some(operation),
    ensures
        list::with(operations, operation) == operations,
{
    list::lemma_last_of(operations, operation.kind());
    let i = list::last_of(operations, operation.kind());
    assert(operations.update(i, operation) =~= operations);
}

proof fn lemma_single(operations: Seq<Operation>, change: Operation)
    requires
        change.valid(),
    ensures
        history::all_tried(operations, seq![change]) == list::with(operations, change),
{
    reveal_with_fuel(history::all_tried, 2);
    assert(seq![change].drop_last() =~= Seq::empty());
}

/// The lists of the history after undoing and redoing.
proof fn lemma_undo_redo_lists(document: DocumentView)
    requires
        document.history.undo.len() > 0,
    ensures
        document.undone().redone().history == document.history,
{
    let again = document.undone().redone();
    assert(again.history.undo =~= document.history.undo);
    assert(again.history.redo =~= document.history.redo);
}

/// A change that began at the current value, went through any previews of the
/// same kind and was committed is one step: undoing it gives back exactly the
/// operations from before the first preview, and redoing it exactly the
/// committed document.
pub proof fn a_transaction_is_one_step(
    start: DocumentView,
    preview: Operation,
    before: Operation,
    after: Operation,
)
    requires
        list::current(start.operations, before.kind()) == Some(before),
        preview.kind() == before.kind(),
        after.kind() == before.kind(),
        before.valid(),
        after.valid(),
    ensures
        ({
            let done = start.set(preview).committed(before, after, true);
            &&& done == start.committed(before, after, true)
            &&& done.undone().operations == start.operations
            &&& done.undone().redone() == done
        }),
{
    let done = start.set(preview).committed(before, after, true);
    the_last_setting_counts(start.operations, preview, after);
    the_last_setting_counts(start.operations, after, before);
    setting_the_current_operation_changes_nothing(start.operations, before);
    pushing_keeps_the_newest(start.history, Step::single(before, after));
    lemma_single(done.operations, before);
    lemma_single(start.operations, after);
    lemma_undo_redo_lists(done);
}

/// Every command to undo, taken back and made again, leads back to the same
/// operations.
pub open spec fn reaches_back(operations: Seq<Operation>, undo: Seq<Step>) -> bool
    decreases undo.len(),
{
    undo.len() == 0 || {
        let step = undo.last();
        let earlier = step.undone(operations);
        step.redone(earlier) == operations && reaches_back(earlier, undo.drop_last())
    }
}

/// Every command to make again, made and taken back, leads back to the same
/// operations.
pub open spec fn reaches_forward(operations: Seq<Operation>, redo: Seq<Step>) -> bool
    decreases redo.len(),
{
    redo.len() == 0 || {
        let step = redo.last();
        let later = step.redone(operations);
        step.undone(later) == operations && reaches_forward(later, redo.drop_last())
    }
}

/// A document whose history can be walked to and fro.
pub open spec fn coherent(document: DocumentView) -> bool {
    &&& reaches_back(document.operations, document.history.undo)
    &&& reaches_forward(document.operations, document.history.redo)
}

/// A new document is coherent.
pub proof fn a_new_document_is_coherent(source: SourceReference)
    ensures
        coherent(DocumentView::fresh(source)),
{
}

/// Undoing keeps a document coherent, and redoing leads back to it.
pub proof fn redo_reverses_undo(document: DocumentView)
    requires
        coherent(document),
        document.history.undo.len() > 0,
    ensures
        coherent(document.undone()),
        document.undone().redone() == document,
{
    let after = document.undone();
    assert(after.history.redo.drop_last() =~= document.history.redo);
    lemma_undo_redo_lists(document);
}

/// Redoing keeps a document coherent, and undoing leads back to it.
pub proof fn undo_reverses_redo(document: DocumentView)
    requires
        coherent(document),
        document.history.redo.len() > 0,
    ensures
        coherent(document.redone()),
        document.redone().undone() == document,
{
    let after = document.redone();
    assert(after.history.undo.drop_last() =~= document.history.undo);
    assert(after.undone().history.undo =~= document.history.undo);
    assert(after.undone().history.redo =~= document.history.redo);
}

/// Dropping the oldest commands leaves the rest walkable.
proof fn lemma_suffix_reaches_back(operations: Seq<Operation>, undo: Seq<Step>, drop: int)
    requires
        reaches_back(operations, undo),
        0 <= drop <= undo.len(),
    ensures
        reaches_back(operations, undo.skip(drop)),
    decreases undo.len(),
{
    let rest = undo.skip(drop);
    if rest.len() > 0 {
        assert(rest.last() == undo.last());
        let earlier = undo.last().undone(operations);
        lemma_suffix_reaches_back(earlier, undo.drop_last(), drop);
        assert(rest.drop_last() =~= undo.drop_last().skip(drop));
    }
}

/// A new step whose undoing leads back to coherent operations leaves a
/// coherent document.
proof fn lemma_new_step(start: DocumentView, done: DocumentView, step: Step)
    requires
        coherent(start),
        done.history == start.history.pushed(step),
        step.undone(done.operations) == start.operations,
        step.redone(start.operations) == done.operations,
    ensures
        coherent(done),
{
    pushing_keeps_the_newest(start.history, step);
    let drop = start.history.undo.len() + 1 - done.history.undo.len();
    lemma_suffix_reaches_back(start.operations, start.history.undo, drop);
}

/// A transaction keeps a document coherent.
pub proof fn transactions_keep_a_document_coherent(
    start: DocumentView,
    preview: Operation,
    before: Operation,
    after: Operation,
)
    requires
        coherent(start),
        list::current(start.operations, before.kind()) == Some(before),
        preview.kind() == before.kind(),
        after.kind() == before.kind(),
        before.valid(),
        after.valid(),
    ensures
        coherent(start.set(preview).committed(before, after, true)),
{
    let done = start.set(preview).committed(before, after, true);
    a_transaction_is_one_step(start, preview, before, after);
    lemma_single(start.operations, after);
    pushing_keeps_the_newest(start.history, Step::single(before, after));
    lemma_new_step(start, done, Step::single(before, after));
}

/// Taking everything back keeps a document coherent.
pub proof fn restoring_keeps_a_document_coherent(document: DocumentView)
    requires
        coherent(document),
    ensures
        coherent(document.restored()),
{
    let step = Step { whole: true, before: document.operations, after: list::untouched() };
    lemma_new_step(document, document.restored(), step);
}

/// The document after some undos.
pub open spec fn undone_times(document: DocumentView, count: nat) -> DocumentView
    decreases count,
{
    if count == 0 {
        document
    } else {
        undone_times(document.undone(), (count - 1) as nat)
    }
}

/// The document after some redos.
pub open spec fn redone_times(document: DocumentView, count: nat) -> DocumentView
    decreases count,
{
    if count == 0 {
        document
    } else {
        redone_times(document, (count - 1) as nat).redone()
    }
}

/// Any number of undos followed by as many redos leads back to the document.
pub proof fn redos_reverse_undos(document: DocumentView, count: nat)
    requires
        coherent(document),
        count <= document.history.undo.len(),
    ensures
        redone_times(undone_times(document, count), count) == document,
    decreases count,
{
    if count > 0 {
        redo_reverses_undo(document);
        redos_reverse_undos(document.undone(), (count - 1) as nat);
    }
}

/// Two kinds that are present, set one after the other.
proof fn lemma_two_places(operations: Seq<Operation>, first: Operation, second: Operation)
    requires
        list::last_of(operations, first.kind()) >= 0,
        list::last_of(operations, second.kind()) >= 0,
        first.kind() != second.kind(),
    ensures
        list::with(list::with(operations, first), second) == operations.update(
            list::last_of(operations, first.kind()),
            first,
        ).update(list::last_of(operations, second.kind()), second),
        list::last_of(list::with(list::with(operations, first), second), first.kind())
            == list::last_of(operations, first.kind()),
        list::last_of(list::with(list::with(operations, first), second), second.kind())
            == list::last_of(operations, second.kind()),
{
    lemma_present(operations, first, first.kind());
    lemma_present(operations, first, second.kind());
    let once = list::with(operations, first);
    lemma_present(once, second, first.kind());
    lemma_present(once, second, second.kind());
}

/// A rotation of a valid document succeeds and keeps the document sound;
/// undoing it gives back exactly the operations from before, and redoing it
/// exactly the rotated document.
pub proof fn rotation_can_be_undone(document: DocumentView, delta: int)
    requires
        sound(document),
        coherent(document),
        list::current(document.operations, Kind::Rotate) is Some,
        list::current(document.operations, Kind::Crop) is Some,
        0 <= delta < 4,
    ensures
        sound(document.rotated(delta)),
        delta != 0 ==> coherent(document.rotated(delta)),
        delta != 0 ==> document.rotated(delta).undone().operations == document.operations,
        delta != 0 ==> document.rotated(delta).undone().redone() == document.rotated(delta),
        delta == 0 ==> document.rotated(delta) == document,
{
    let ops = document.operations;
    list::lemma_last_of(ops, Kind::Rotate);
    list::lemma_last_of(ops, Kind::Crop);
    let r = list::last_of(ops, Kind::Rotate);
    let c = list::last_of(ops, Kind::Crop);
    assert(ops[r].valid());
    assert(ops[c].valid());
    let turn_before = Operation::Rotate { quarter_turns: document.turns() };
    let crop_before = Operation::Crop { rect: document.crop() };
    assert(ops[r] == turn_before);
    assert(ops[c] == crop_before);
    crop_laws::turning_on_keeps_a_crop_valid(document.crop(), delta);
    let turn_after = Operation::Rotate { quarter_turns: document.turns_after(delta) };
    let crop_after = Operation::Crop { rect: project::turned(document.crop(), delta) };
    let done = document.rotated(delta);
    let step = document.rotation_step(delta);
    list::setting_keeps_validity(ops, turn_after);
    list::setting_keeps_validity(list::with(ops, turn_after), crop_after);
    lemma_pushed_is_sound(document, step);
    lemma_two_places(ops, turn_after, crop_after);
    lemma_two_places(done.operations, turn_before, crop_before);
    assert(ops.update(r, turn_after).update(c, crop_after).update(r, turn_before).update(
        c,
        crop_before,
    ) =~= ops);
    lemma_pair(done.operations, turn_before, crop_before);
    lemma_pair(ops, turn_after, crop_after);
    assert(document.turns() <= 3);
    if delta == 0 {
        assert(document.turns_after(0) == document.turns());
        assert(ops.update(r, turn_before).update(c, crop_before) =~= ops);
        assert(done.operations =~= ops);
    } else {
        assert(document.turns_after(delta) != document.turns());
        lemma_new_step(document, done, step);
        pushing_keeps_the_newest(document.history, step);
        redo_reverses_undo(done);
    }
}

/// Turning the photo keeps a document sound.
pub proof fn turning_keeps_a_document_sound(document: DocumentView, delta: int)
    requires
        sound(document),
        0 <= delta < 4,
    ensures
        document.turns() <= 3,
        document.crop().valid(),
        sound(document.rotated(delta)),
{
    let ops = document.operations;
    list::lemma_last_of(ops, Kind::Rotate);
    list::lemma_last_of(ops, Kind::Crop);
    lemma_whole_crop_is_valid();
    if list::last_of(ops, Kind::Rotate) >= 0 {
        assert(ops[list::last_of(ops, Kind::Rotate)].valid());
    }
    if list::last_of(ops, Kind::Crop) >= 0 {
        assert(ops[list::last_of(ops, Kind::Crop)].valid());
    }
    crop_laws::turning_on_keeps_a_crop_valid(document.crop(), delta);
    let turn_after = Operation::Rotate { quarter_turns: document.turns_after(delta) };
    let crop_after = Operation::Crop { rect: project::turned(document.crop(), delta) };
    list::setting_keeps_validity(ops, turn_after);
    list::setting_keeps_validity(list::with(ops, turn_after), crop_after);
    lemma_pushed_is_sound(document, document.rotation_step(delta));
}

proof fn lemma_pair(operations: Seq<Operation>, first: Operation, second: Operation)
    requires
        first.valid(),
        second.valid(),
    ensures
        history::all_tried(operations, seq![first, second]) == list::with(
            list::with(operations, first),
            second,
        ),
{
    assert(seq![first, second].drop_last() =~= seq![first]);
    lemma_single(operations, first);
}

/// Quarter turns to and fro cancel, and four of them are none.
pub proof fn turns_cancel(turns: int, delta: int)
    requires
        0 <= turns <= 3,
    ensures
        ((turns + delta % 4) % 4 + (-delta) % 4) % 4 == turns,
        (turns + 4) % 4 == turns,
{
}

/// Reading a parameter gives back what was set, and every other parameter is
/// as it was.
pub proof fn reading_gives_back_what_was_set(document: DocumentView, operation: Operation)
    ensures
        ({
            let after = document.set(operation);
            &&& after.exposure() == if let Operation::Exposure { ev } = operation {
                ev
            } else {
                document.exposure()
            }
            &&& after.contrast_amount() == if let Operation::Contrast { amount } = operation {
                amount
            } else {
                document.contrast_amount()
            }
            &&& after.shadow_and_highlight() == if let Operation::ShadowsHighlights {
                adjustment,
            } = operation {
                adjustment
            } else {
                document.shadow_and_highlight()
            }
            &&& after.balance() == if let Operation::WhiteBalance { adjustment } = operation {
                adjustment
            } else {
                document.balance()
            }
            &&& after.turns() == if let Operation::Rotate { quarter_turns } = operation {
                quarter_turns
            } else {
                document.turns()
            }
            &&& after.crop() == if let Operation::Crop { rect } = operation {
                rect
            } else {
                document.crop()
            }
            &&& after.curve() == if let Operation::ToneCurve { curve } = operation {
                curve
            } else {
                document.curve()
            }
            &&& after.saturation_amount() == if let Operation::Saturation { amount } = operation {
                amount
            } else {
                document.saturation_amount()
            }
            &&& after.vignette_strength() == if let Operation::Vignette { strength } = operation {
                strength
            } else {
                document.vignette_strength()
            }
            &&& after.sharpness_amount() == if let Operation::Sharpness { amount } = operation {
                amount
            } else {
                document.sharpness_amount()
            }
            &&& after.denoise_amounts() == if let Operation::Denoise {
                luma_denoise,
                color_denoise,
            } = operation {
                (luma_denoise, color_denoise)
            } else {
                document.denoise_amounts()
            }
            &&& after.border() == if let Operation::Frame { width_pct, color } = operation {
                (width_pct, color)
            } else {
                document.border()
            }
            &&& after.degrees() == if let Operation::Straighten { degrees } = operation {
                degrees
            } else {
                document.degrees()
            }
        }),
{
    let ops = document.operations;
    list::setting_one_kind_leaves_the_others(ops, operation, Kind::Exposure);
    list::setting_one_kind_leaves_the_others(ops, operation, Kind::Contrast);
    list::setting_one_kind_leaves_the_others(ops, operation, Kind::ShadowsHighlights);
    list::setting_one_kind_leaves_the_others(ops, operation, Kind::WhiteBalance);
    list::setting_one_kind_leaves_the_others(ops, operation, Kind::Rotate);
    list::setting_one_kind_leaves_the_others(ops, operation, Kind::Crop);
    list::setting_one_kind_leaves_the_others(ops, operation, Kind::ToneCurve);
    list::setting_one_kind_leaves_the_others(ops, operation, Kind::Saturation);
    list::setting_one_kind_leaves_the_others(ops, operation, Kind::Vignette);
    list::setting_one_kind_leaves_the_others(ops, operation, Kind::Sharpness);
    list::setting_one_kind_leaves_the_others(ops, operation, Kind::Denoise);
    list::setting_one_kind_leaves_the_others(ops, operation, Kind::Frame);
    list::setting_one_kind_leaves_the_others(ops, operation, Kind::Straighten);
}

/// A change to the value that is there already leaves no command.
pub proof fn a_change_to_the_same_value_leaves_no_command(amount: Scalar)
    requires
        amount.finite(),
    ensures
        !values::distinct(amount, amount),
{
    laws::difference_with_itself_is_zero(amount);
}

} // verus!
