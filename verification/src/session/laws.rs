//! What holds of every session.

use vstd::prelude::*;

use crate::document::crop_laws;
use crate::document::curve::ToneCurve;
use crate::document::history::Step;
use crate::document::laws;
use crate::document::list;
use crate::document::operation::{Kind, Operation};
use crate::document::project;
use crate::document::project::DocumentView;
use crate::document::values::{CropRect, ViewState};
use crate::number::scalar::Scalar;
use crate::render::contracts::ImageInfo;
use crate::session::edit::Slider;
use crate::session::preview;
use crate::session::preview::Place;
use crate::session::state::SessionView;

verus! {

/// Whether the previews of the original can be told from those of the photo.
pub open spec fn tells_apart(session: SessionView) -> bool {
    &&& session.newest_generation == session.generation
    &&& session.generation < preview::ORIGINAL_GENERATIONS
    &&& session.original_generation >= preview::ORIGINAL_GENERATIONS
}

/// A preview of the photo is never taken for one of the original, nor the
/// other way round: whatever happens in a session, their generations lie
/// apart, up to the number of previews that separates them.
pub proof fn the_original_is_told_from_the_photo(
    session: SessionView,
    now: u64,
    canvas: (u32, u32),
    generation: u64,
    effective_zoom: Scalar,
    document: DocumentView,
    path: Option<Seq<char>>,
    info: ImageInfo,
)
    requires
        tells_apart(session),
        session.generation + 1 < preview::ORIGINAL_GENERATIONS,
    ensures
        tells_apart(session.queued(now, canvas)),
        tells_apart(session.original_queued(canvas)),
        tells_apart(session.toggled()),
        tells_apart(session.arrived(generation, effective_zoom, canvas)),
        tells_apart(session.opened(document, path, info)),
        session.next_request(canvas) matches Some(request) ==> session.queued(
            now,
            canvas,
        ).place_of(request.generation) == Place::Photo,
        session.original_request(canvas) matches Some(request) ==> session.original_queued(
            canvas,
        ).place_of(request.generation) == Place::Original,
{
}

/// A new session can tell the previews apart.
pub proof fn a_new_session_tells_previews_apart(recovery_path: Seq<char>)
    ensures
        tells_apart(SessionView::empty(recovery_path)),
{
}

/// A preview that a newer request has overtaken changes nothing.
pub proof fn an_overtaken_preview_changes_nothing(
    session: SessionView,
    now: u64,
    canvas: (u32, u32),
    later: (u32, u32),
    generation: u64,
    effective_zoom: Scalar,
)
    requires
        tells_apart(session),
        session.renders(canvas),
        generation <= session.generation,
        session.generation + 1 < preview::ORIGINAL_GENERATIONS,
    ensures
        session.queued(now, canvas).place_of(generation) == Place::Nowhere,
        session.queued(now, canvas).arrived(generation, effective_zoom, later) == session.queued(
            now,
            canvas,
        ),
{
}

/// The original is asked for after the edited photo has arrived, and not
/// again once it is there.
pub proof fn the_original_is_rendered_once(
    session: SessionView,
    canvas: (u32, u32),
    effective_zoom: Scalar,
)
    requires
        tells_apart(session),
        session.renders(canvas),
        session.original_preview_pending,
        !session.has_original(session.original_key(canvas)),
        session.original_key(canvas).same(session.original_key(canvas)),
    ensures
        ({
            let waiting = session.arrived(session.newest_generation, effective_zoom, canvas);
            let there = waiting.arrived(waiting.original_generation, effective_zoom, canvas);
            &&& waiting.original_request_key == Some(session.original_key(canvas))
            &&& there.original_preview_key == Some(session.original_key(canvas))
            &&& there.original_request(canvas) is None
        }),
{
}

/// A session whose document is valid, and stays so when a change is given up.
pub open spec fn is_sound(session: SessionView) -> bool {
    &&& session.document matches Some(document) ==> laws::sound(document)
    &&& session.crop_edit_start matches Some(rect) ==> rect.valid()
    &&& session.curve_edit_start matches Some(curve) ==> curve.valid()
}

/// The crop, the curve and the turns of a sound document are valid.
proof fn lemma_current_is_valid(document: DocumentView)
    requires
        laws::sound(document),
    ensures
        document.crop().valid(),
        document.curve().valid(),
        document.turns() <= 3,
{
    laws::untouched_is_valid();
    laws::turning_keeps_a_document_sound(document, 0);
    list::lemma_last_of(document.operations, Kind::ToneCurve);
    if list::last_of(document.operations, Kind::ToneCurve) >= 0 {
        assert(document.operations[list::last_of(document.operations, Kind::ToneCurve)].valid());
    } else {
        assert(list::untouched()[8].valid());
    }
}

/// Whatever is set, tried or not, the document stays valid.
pub proof fn setting_keeps_a_session_sound(
    session: SessionView,
    operation: Operation,
    now: u64,
    canvas: (u32, u32),
)
    requires
        is_sound(session),
    ensures
        is_sound(session.previewed(operation, now, canvas)),
        is_sound(session.made(operation, now, canvas)),
{
    if let Some(document) = session.document {
        let before = session.start_of(operation.kind());
        if operation.valid() {
            laws::setting_keeps_a_document_sound(document, operation);
            laws::committing_keeps_a_document_sound(
                document,
                before,
                operation,
                project::notable(before, operation),
            );
        }
    }
}

/// Resetting a number keeps the document valid.
pub proof fn resetting_keeps_a_session_sound(session: SessionView, slider: Slider, now: u64)
    requires
        is_sound(session),
        session.can_reset(slider),
    ensures
        is_sound(session.resetting(slider, now)),
{
    let before = session.document->0.operation_of(slider.kind());
    let after = slider.cleared(before);
    laws::committing_keeps_a_document_sound(
        session.document->0,
        before,
        after,
        project::notable(before, after),
    );
}

/// Undoing, redoing, restoring and turning keep the document valid, and a
/// photo that is open can always be turned.
pub proof fn steps_keep_a_session_sound(
    session: SessionView,
    delta: i32,
    now: u64,
    canvas: (u32, u32),
)
    requires
        is_sound(session),
    ensures
        is_sound(session.undone(now, canvas)),
        is_sound(session.redone(now, canvas)),
        session.can_restore() ==> is_sound(session.restoring(now)),
        session.turn_is_possible(delta),
        session.can_turn(delta) ==> session.turned_crop(delta).valid(),
        session.can_turn(delta) ==> is_sound(session.turning(delta, now)),
{
    if let Some(document) = session.document {
        if document.history.undo.len() > 0 {
            laws::undoing_keeps_a_document_sound(document);
        }
        if document.history.redo.len() > 0 {
            laws::redoing_keeps_a_document_sound(document);
        }
        laws::restoring_can_be_undone(document);
        laws::turning_keeps_a_document_sound(document, delta as int % 4);
        crop_laws::turning_on_keeps_a_crop_valid(document.crop(), delta as int % 4);
    }
}

/// Changing the crop or the tone curve keeps the document valid, applied or
/// given up.
pub proof fn modes_keep_a_session_sound(
    session: SessionView,
    rect: CropRect,
    curve: ToneCurve,
    now: u64,
)
    requires
        is_sound(session),
        session.document is Some,
    ensures
        is_sound(session.cropping()),
        is_sound(session.crop_tried(rect)),
        session.crops() ==> is_sound(session.applying(now)),
        session.crops() ==> is_sound(session.giving_up()),
        is_sound(session.curving()),
        curve.valid() ==> is_sound(session.curve_tried(curve)),
        is_sound(session.curve_made(now)),
        is_sound(session.curve_finished(now)),
        is_sound(session.modes_left()),
{
    let document = session.document->0;
    lemma_current_is_valid(document);
    if rect.valid() {
        laws::setting_keeps_a_document_sound(document, Operation::Crop { rect });
    }
    if curve.valid() {
        laws::setting_keeps_a_document_sound(document, Operation::ToneCurve { curve });
    }
    let crop_after = Operation::Crop { rect: document.crop() };
    let curve_after = Operation::ToneCurve { curve: document.curve() };
    if let Some(before) = session.crop_edit_start {
        laws::committing_keeps_a_document_sound(
            document,
            Operation::Crop { rect: before },
            crop_after,
            !before.same(document.crop()),
        );
        laws::setting_keeps_a_document_sound(document, Operation::Crop { rect: before });
    }
    if let Some(before) = session.curve_edit_start {
        laws::committing_keeps_a_document_sound(
            document,
            Operation::ToneCurve { curve: before },
            curve_after,
            true,
        );
        laws::setting_keeps_a_document_sound(document, Operation::ToneCurve { curve: before });
        if let Some(rect) = session.crop_edit_start {
            let uncropped = document.set(Operation::Crop { rect });
            laws::setting_keeps_a_document_sound(
                uncropped,
                Operation::ToneCurve { curve: before },
            );
        }
    }
}

/// Crops tried out one after the other.
pub open spec fn crops_tried(session: SessionView, rects: Seq<CropRect>) -> SessionView
    decreases rects.len(),
{
    if rects.len() == 0 {
        session
    } else {
        crops_tried(session, rects.drop_last()).crop_tried(rects.last())
    }
}

/// Trying crops out leaves everything but the crop alone.
proof fn lemma_crops_tried(session: SessionView, rects: Seq<CropRect>)
    requires
        session.document is Some,
        list::current(session.document->0.operations, Kind::Crop) == Some(
            Operation::Crop { rect: session.document->0.crop() },
        ),
    ensures
        ({
            let document = session.document->0;
            let tried = crops_tried(session, rects);
            &&& tried.document is Some
            &&& tried == session.holding(
                document.set(Operation::Crop { rect: tried.document->0.crop() }),
            )
        }),
    decreases rects.len(),
{
    let document = session.document->0;
    let current = Operation::Crop { rect: document.crop() };
    laws::setting_the_current_operation_changes_nothing(document.operations, current);
    if rects.len() > 0 {
        lemma_crops_tried(session, rects.drop_last());
        let before = crops_tried(session, rects.drop_last());
        let first = Operation::Crop { rect: before.document->0.crop() };
        let second = Operation::Crop { rect: rects.last() };
        laws::the_last_setting_counts(document.operations, first, second);
        laws::reading_gives_back_what_was_set(before.document->0, second);
    }
}

/// Giving a change of the crop up leaves the document as it was, whatever was
/// tried out, and leaves nothing to be saved.
pub proof fn giving_up_a_crop_changes_nothing(session: SessionView, rects: Seq<CropRect>)
    requires
        is_sound(session),
        session.document is Some,
        list::current(session.document->0.operations, Kind::Crop) is Some,
    ensures
        ({
            let given_up = crops_tried(session.cropping(), rects).giving_up();
            &&& given_up.document == session.document
            &&& !given_up.crops()
            &&& given_up.changed_at is None
        }),
{
    let document = session.document->0;
    let current = Operation::Crop { rect: document.crop() };
    list::lemma_last_of(document.operations, Kind::Crop);
    lemma_current_is_valid(document);
    assert(list::current(document.operations, Kind::Crop) == Some(current));
    let begun = session.cropping();
    assert(begun.document->0.crop() == document.crop());
    lemma_crops_tried(begun, rects);
    let tried = crops_tried(begun, rects);
    laws::the_last_setting_counts(
        document.operations,
        Operation::Crop { rect: tried.document->0.crop() },
        current,
    );
    laws::setting_the_current_operation_changes_nothing(document.operations, current);
}

/// Applying a crop is one command at most, from the crop at the beginning to
/// the last one that was tried out, and undoing it leads back.
pub proof fn applying_a_crop_is_one_command(session: SessionView, rects: Seq<CropRect>, now: u64)
    requires
        is_sound(session),
        session.document is Some,
        list::current(session.document->0.operations, Kind::Crop) is Some,
    ensures
        ({
            let document = session.document->0;
            let tried = crops_tried(session.cropping(), rects);
            let applied = tried.applying(now).document->0;
            let before = document.crop();
            let after = tried.document->0.crop();
            &&& applied.crop() == after
            &&& applied.history == if before.same(after) {
                document.history
            } else {
                document.history.pushed(
                    Step::single(
                        Operation::Crop { rect: before },
                        Operation::Crop { rect: after },
                    ),
                )
            }
            &&& !before.same(after) ==> applied.undone().operations == document.operations
            &&& applied.view == ViewState::initial()
        }),
{
    let document = session.document->0;
    let current = Operation::Crop { rect: document.crop() };
    list::lemma_last_of(document.operations, Kind::Crop);
    lemma_current_is_valid(document);
    assert(list::current(document.operations, Kind::Crop) == Some(current));
    let begun = session.cropping();
    assert(begun.document->0.crop() == document.crop());
    lemma_crops_tried(begun, rects);
    lemma_tried_is_sound(begun, rects);
    let tried = crops_tried(begun, rects);
    lemma_current_is_valid(tried.document->0);
    let last = Operation::Crop { rect: tried.document->0.crop() };
    laws::the_last_setting_counts(document.operations, last, last);
    laws::reading_gives_back_what_was_set(document, last);
    laws::a_transaction_is_one_step(document, last, current, last);
    let plain = document.committed(current, last, true);
    let applied = tried.applying(now).document->0;
    if !document.crop().same(tried.document->0.crop()) {
        assert(applied.operations == plain.operations);
        assert(applied.history == plain.history);
        assert(applied.undone().operations == plain.undone().operations);
    }
    assert(applied.crop() == document.set(last).crop());
}

/// Trying crops out keeps a session sound.
proof fn lemma_tried_is_sound(session: SessionView, rects: Seq<CropRect>)
    requires
        is_sound(session),
        session.document is Some,
    ensures
        is_sound(crops_tried(session, rects)),
        crops_tried(session, rects).document is Some,
    decreases rects.len(),
{
    if rects.len() > 0 {
        lemma_tried_is_sound(session, rects.drop_last());
        let before = crops_tried(session, rects.drop_last());
        let rect = rects.last();
        if rect.valid() {
            laws::setting_keeps_a_document_sound(
                before.document->0,
                Operation::Crop { rect },
            );
        }
    }
}

/// Operations tried one after the other.
pub open spec fn all_previewed(
    session: SessionView,
    operations: Seq<Operation>,
    now: u64,
    canvas: (u32, u32),
) -> SessionView
    decreases operations.len(),
{
    if operations.len() == 0 {
        session
    } else {
        all_previewed(session, operations.drop_last(), now, canvas).previewed(
            operations.last(),
            now,
            canvas,
        )
    }
}

/// While a number is dragged, the change begins once, the history stays, and
/// only the operation that is dragged is changed.
proof fn lemma_all_previewed(
    session: SessionView,
    operations: Seq<Operation>,
    kind: Kind,
    now: u64,
    canvas: (u32, u32),
)
    requires
        session.document is Some,
        !session.refuses(kind),
        session.starts.at(kind) is None,
        kind != Kind::Rotate,
        kind != Kind::Crop,
        kind != Kind::ToneCurve,
        list::current(session.document->0.operations, kind) is Some,
        operations.len() > 0,
        forall|i: int|
            0 <= i < operations.len() ==> (#[trigger] operations[i]).kind() == kind
                && operations[i].valid(),
    ensures
        ({
            let document = session.document->0;
            let tried = all_previewed(session, operations, now, canvas);
            &&& tried.document is Some
            &&& !tried.refuses(kind)
            &&& tried.starts.at(kind) == Some(document.operation_of(kind))
            &&& tried.document->0.operations == list::with(document.operations, operations.last())
            &&& tried.document->0.history == document.history
            &&& tried.document->0.source == document.source
            &&& tried.document->0.schema_version == document.schema_version
        }),
    decreases operations.len(),
{
    let document = session.document->0;
    list::lemma_last_of(document.operations, kind);
    let last = operations.last();
    assert(last.kind() == kind && last.valid());
    if operations.len() == 1 {
        assert(operations.drop_last() =~= Seq::empty());
        assert(all_previewed(session, operations.drop_last(), now, canvas) == session);
        assert(session.starts.with(document.operation_of(kind)).at(kind) == Some(
            document.operation_of(kind),
        ));
    } else {
        let earlier = operations.drop_last();
        assert forall|i: int| 0 <= i < earlier.len() implies (#[trigger] earlier[i]).kind() == kind
            && earlier[i].valid() by {
            assert(operations[i].kind() == kind);
        }
        lemma_all_previewed(session, earlier, kind, now, canvas);
        laws::the_last_setting_counts(document.operations, earlier.last(), last);
        let before = all_previewed(session, earlier, now, canvas);
        assert(before.starts.with(before.starts.at(kind)->0).at(kind) == before.starts.at(kind));
    }
}

/// A whole drag is one command, from what was set before it to what is set at
/// its end, and undoing it leads back.
pub proof fn a_drag_is_one_command(
    session: SessionView,
    operations: Seq<Operation>,
    after: Operation,
    now: u64,
    canvas: (u32, u32),
)
    requires
        is_sound(session),
        session.document is Some,
        !session.refuses(after.kind()),
        session.starts.at(after.kind()) is None,
        after.kind() != Kind::Rotate,
        after.kind() != Kind::Crop,
        after.kind() != Kind::ToneCurve,
        after.valid(),
        list::current(session.document->0.operations, after.kind()) is Some,
        operations.len() > 0,
        forall|i: int|
            0 <= i < operations.len() ==> (#[trigger] operations[i]).kind() == after.kind()
                && operations[i].valid(),
    ensures
        ({
            let document = session.document->0;
            let before = document.operation_of(after.kind());
            let done = all_previewed(session, operations, now, canvas).made(after, now, canvas);
            let result = done.document->0;
            &&& done.starts.at(after.kind()) is None
            &&& result.operations == list::with(document.operations, after)
            &&& result.history == if project::notable(before, after) {
                document.history.pushed(
                    Step::single(before, after),
                )
            } else {
                document.history
            }
            &&& project::notable(before, after) ==> result.undone().operations
                == document.operations
        }),
{
    let document = session.document->0;
    let kind = after.kind();
    let before = document.operation_of(kind);
    list::lemma_last_of(document.operations, kind);
    assert(document.operations[list::last_of(document.operations, kind)].valid());
    assert(list::current(document.operations, kind) == Some(before));
    lemma_all_previewed(session, operations, kind, now, canvas);
    let tried = all_previewed(session, operations, now, canvas);
    let last = operations.last();
    assert(last.kind() == kind);
    laws::the_last_setting_counts(document.operations, last, after);
    laws::a_transaction_is_one_step(document, last, before, after);
    let plain = document.committed(before, after, true);
    let done = tried.made(after, now, canvas);
    assert(tried.start_of(kind) == before);
    assert(done.document->0.operations == plain.operations);
    if project::notable(before, after) {
        assert(done.document->0.history == plain.history);
        assert(done.document->0.undone().operations == plain.undone().operations);
    }
}

/// While the crop or the tone curve is being changed, nothing is undone or
/// redone, and the view stays as it is.
pub proof fn modes_hold_the_history(session: SessionView, now: u64, canvas: (u32, u32))
    requires
        session.in_a_mode(),
    ensures
        session.undone(now, canvas) == session,
        session.redone(now, canvas) == session,
        !session.can_undo(),
        !session.can_redo(),
        !session.can_restore(),
        !session.can_look(),
{
}

/// A project that could not be saved has the file again that it had before.
pub proof fn a_failed_save_takes_the_file_back(session: SessionView, path: Seq<char>)
    ensures
        session.saving(path).not_saved(path, session.project_path).project_path
            == session.project_path,
{
}

/// A change is saved half a second after the last one, and not earlier.
pub proof fn changes_are_saved_after_a_while(session: SessionView, now: u64, later: u64)
    ensures
        session.changed(now).save_is_due(later) <==> later >= now
            + 500,
{
}

} // verus!
