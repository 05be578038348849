//! What holds of documents that are brought up to date.

use vstd::prelude::*;

use crate::document::history::{Step, Timeline};
use crate::document::laws;
use crate::document::list;
use crate::document::migrate;
use crate::document::operation::{Kind, Operation, PROJECT_SCHEMA_VERSION};
use crate::document::project::DocumentView;
use crate::document::values::ShadowsHighlights;

verus! {

/// A document in the newest form is left as it is, so that bringing it up to
/// date twice is bringing it up to date once.
pub proof fn upgrading_twice_is_upgrading_once(document: DocumentView)
    ensures
        migrate::upgraded(migrate::upgraded(document)) == migrate::upgraded(document),
        migrate::upgraded(document).history.bounded(),
        migrate::upgraded(document).schema_version == PROJECT_SCHEMA_VERSION,
        document.schema_version == PROJECT_SCHEMA_VERSION && document.history.bounded()
            ==> migrate::upgraded(document) == document,
{
    let once = migrate::upgraded(document);
    let history = if document.schema_version < 15 {
        Timeline {
            undo: migrate::all_inverted_steps(document.history.undo),
            redo: migrate::all_inverted_steps(document.history.redo),
        }
    } else {
        document.history
    };
    laws::trimming_is_needed_once(history);
    laws::trimming_is_needed_once(once.history);
}

/// The current operations after a neutral one has been added.
proof fn lemma_completed(
    operations: Seq<Operation>,
    needed: bool,
    place: int,
    neutral: Operation,
    kind: Kind,
)
    requires
        0 <= place <= operations.len(),
    ensures
        list::current(migrate::completed(operations, needed, place, neutral), kind) == if needed
            && kind == neutral.kind() && list::current(operations, kind) is None {
            Some(neutral)
        } else {
            list::current(operations, kind)
        },
        list::all_valid(operations) && neutral.valid() ==> list::all_valid(
            migrate::completed(operations, needed, place, neutral),
        ),
{
    list::lemma_last_of(operations, kind);
    list::lemma_last_of(operations, neutral.kind());
    let after = migrate::completed(operations, needed, place, neutral);
    if needed && migrate::lacks(operations, neutral.kind()) {
        let k = list::last_of(operations, kind);
        if kind == neutral.kind() {
            assert forall|j: int| place < j < after.len() implies (#[trigger] after[j]).kind()
                != kind by {
                assert(after[j] == operations[j - 1]);
            }
            list::lemma_last_is(after, kind, place);
        } else {
            let moved = if k >= place {
                k + 1
            } else {
                k
            };
            assert forall|j: int| moved < j < after.len() implies (#[trigger] after[j]).kind()
                != kind by {
                if j > place {
                    assert(after[j] == operations[j - 1]);
                } else if j < place {
                    assert(after[j] == operations[j]);
                }
            }
            if k >= 0 {
                assert(after[moved] == operations[k]);
            }
            list::lemma_last_is(after, kind, moved);
        }
        if list::all_valid(operations) && neutral.valid() {
            assert forall|j: int| 0 <= j < after.len() implies (#[trigger] after[j]).valid() by {
                if j > place {
                    assert(after[j] == operations[j - 1]);
                } else if j < place {
                    assert(after[j] == operations[j]);
                }
            }
        }
    }
}

/// The places at which operations are added lie in the list.
proof fn lemma_places(operations: Seq<Operation>, after: Kind, before: Kind)
    ensures
        0 <= migrate::behind(operations, after) <= operations.len(),
        0 <= migrate::ahead_of(operations, before) <= operations.len(),
        0 <= migrate::between(operations, after, before) <= operations.len(),
        0 <= list::first_of(operations, Kind::Rotate) + 1 <= operations.len(),
{
    list::lemma_last_of(operations, after);
    list::lemma_first_of(operations, before);
    list::lemma_first_of(operations, Kind::Rotate);
}

/// Turning shadows and highlights round keeps the range.
proof fn lemma_inverted_is_valid(operation: Operation)
    requires
        operation.valid(),
    ensures
        migrate::inverted(operation).valid(),
{
}

proof fn lemma_all_inverted_is_valid(operations: Seq<Operation>)
    requires
        list::all_valid(operations),
    ensures
        list::all_valid(migrate::all_inverted(operations)),
{
    let after = migrate::all_inverted(operations);
    assert forall|i: int| 0 <= i < after.len() implies (#[trigger] after[i]).valid() by {
        lemma_inverted_is_valid(operations[i]);
    }
}

/// The current operations after shadows and highlights have been turned.
proof fn lemma_current_inverted(operations: Seq<Operation>, kind: Kind)
    ensures
        list::current(migrate::all_inverted(operations), kind) == match list::current(
            operations,
            kind,
        ) {
            Some(operation) => Some(migrate::inverted(operation)),
            None => None,
        },
{
    let after = migrate::all_inverted(operations);
    list::lemma_last_of(operations, kind);
    assert forall|j: int|
        list::last_of(operations, kind) < j < after.len() implies (#[trigger] after[j]).kind()
        != kind by {
        assert(operations[j].kind() != kind);
    }
    list::lemma_last_is(after, kind, list::last_of(operations, kind));
}

/// The neutral operation that a kind is added as, if any.
pub open spec fn added_as(kind: Kind, version: u32) -> Option<Operation> {
    match kind {
        Kind::WhiteBalance if version < 6 => Some(migrate::neutral_white_balance()),
        Kind::Saturation if version < 7 => Some(migrate::neutral_saturation()),
        Kind::Sharpness if version < 8 => Some(migrate::neutral_sharpness()),
        Kind::Contrast if version < 9 => Some(migrate::neutral_contrast()),
        Kind::Frame if version < 10 => Some(migrate::neutral_frame()),
        Kind::Straighten if version < 12 => Some(migrate::neutral_straighten()),
        Kind::ShadowsHighlights if version < 14 => Some(migrate::neutral_shadows_highlights()),
        _ => None,
    }
}

proof fn lemma_filled(operations: Seq<Operation>, version: u32, kind: Kind)
    ensures
        list::current(migrate::filled(operations, version), kind) == match list::current(
            operations,
            kind,
        ) {
            Some(operation) => Some(operation),
            None => added_as(kind, version),
        },
        list::all_valid(operations) ==> list::all_valid(migrate::filled(operations, version)),
{
    let a = migrate::with_white_balance(operations, version);
    let b = migrate::with_saturation(a, version);
    let c = migrate::with_sharpness(b, version);
    let d = migrate::with_contrast(c, version);
    let e = migrate::with_frame(d, version);
    let f = migrate::with_straighten(e, version);
    lemma_places(operations, Kind::Exposure, Kind::Exposure);
    lemma_completed(
        operations,
        version < 6,
        migrate::ahead_of(operations, Kind::Exposure),
        migrate::neutral_white_balance(),
        kind,
    );
    lemma_places(a, Kind::ToneCurve, Kind::ToneCurve);
    lemma_completed(
        a,
        version < 7,
        migrate::behind(a, Kind::ToneCurve),
        migrate::neutral_saturation(),
        kind,
    );
    lemma_places(b, Kind::Saturation, Kind::Saturation);
    lemma_completed(
        b,
        version < 8,
        migrate::behind(b, Kind::Saturation),
        migrate::neutral_sharpness(),
        kind,
    );
    lemma_places(c, Kind::Exposure, Kind::Exposure);
    lemma_completed(
        c,
        version < 9,
        migrate::behind(c, Kind::Exposure),
        migrate::neutral_contrast(),
        kind,
    );
    lemma_completed(d, version < 10, d.len() as int, migrate::neutral_frame(), kind);
    lemma_places(e, Kind::Exposure, Kind::Exposure);
    lemma_completed(
        e,
        version < 12,
        list::first_of(e, Kind::Rotate) + 1,
        migrate::neutral_straighten(),
        kind,
    );
    lemma_places(f, Kind::Exposure, Kind::Contrast);
    lemma_completed(
        f,
        version < 14,
        migrate::between(f, Kind::Exposure, Kind::Contrast),
        migrate::neutral_shadows_highlights(),
        kind,
    );
}

proof fn lemma_upgraded_current(operations: Seq<Operation>, version: u32, kind: Kind)
    ensures
        ({
            let filled = match list::current(operations, kind) {
                Some(operation) => Some(operation),
                None => added_as(kind, version),
            };
            let turned = match filled {
                Some(operation) => Some(
                    if version < 15 {
                        migrate::inverted(operation)
                    } else {
                        operation
                    },
                ),
                None => None,
            };
            list::current(migrate::upgraded_operations(operations, version), kind)
                == if turned is None && kind == Kind::Vignette && version < 18 {
                Some(migrate::neutral_vignette())
            } else {
                turned
            }
        }),
        list::all_valid(operations) ==> list::all_valid(
            migrate::upgraded_operations(operations, version),
        ),
{
    let filled = migrate::filled(operations, version);
    lemma_filled(operations, version, kind);
    let turned = if version < 15 {
        migrate::all_inverted(filled)
    } else {
        filled
    };
    if version < 15 {
        lemma_current_inverted(filled, kind);
        if list::all_valid(filled) {
            lemma_all_inverted_is_valid(filled);
        }
    }
    lemma_places(turned, Kind::Saturation, Kind::Sharpness);
    lemma_completed(
        turned,
        version < 18,
        migrate::between(turned, Kind::Saturation, Kind::Sharpness),
        migrate::neutral_vignette(),
        kind,
    );
}

/// Bringing a document up to date keeps every parameter as it was; only the
/// directions of shadows and highlights turn, in the forms that had them the
/// other way round.
pub proof fn upgrading_keeps_the_parameters(document: DocumentView)
    requires
        document.valid(),
    ensures
        ({
            let after = migrate::upgraded(document);
            let old_directions = document.shadow_and_highlight();
            &&& after.exposure() == document.exposure()
            &&& after.contrast_amount() == document.contrast_amount()
            &&& after.balance() == document.balance()
            &&& after.turns() == document.turns()
            &&& after.crop() == document.crop()
            &&& after.curve() == document.curve()
            &&& after.saturation_amount() == document.saturation_amount()
            &&& after.vignette_strength() == document.vignette_strength()
            &&& after.sharpness_amount() == document.sharpness_amount()
            &&& after.denoise_amounts() == document.denoise_amounts()
            &&& after.border() == document.border()
            &&& after.degrees() == document.degrees()
            &&& document.schema_version >= 15 ==> after.shadow_and_highlight() == old_directions
            &&& document.schema_version < 15 ==> after.shadow_and_highlight().same(
                ShadowsHighlights {
                    shadows: old_directions.shadows.negated(),
                    highlights: old_directions.highlights.negated(),
                },
            )
            &&& after.source == document.source
            &&& after.view == document.view
        }),
{
    let ops = document.operations;
    let version = document.schema_version;
    lemma_upgraded_current(ops, version, Kind::Exposure);
    lemma_upgraded_current(ops, version, Kind::Contrast);
    lemma_upgraded_current(ops, version, Kind::ShadowsHighlights);
    lemma_upgraded_current(ops, version, Kind::WhiteBalance);
    lemma_upgraded_current(ops, version, Kind::Rotate);
    lemma_upgraded_current(ops, version, Kind::Crop);
    lemma_upgraded_current(ops, version, Kind::ToneCurve);
    lemma_upgraded_current(ops, version, Kind::Saturation);
    lemma_upgraded_current(ops, version, Kind::Vignette);
    lemma_upgraded_current(ops, version, Kind::Sharpness);
    lemma_upgraded_current(ops, version, Kind::Denoise);
    lemma_upgraded_current(ops, version, Kind::Frame);
    lemma_upgraded_current(ops, version, Kind::Straighten);
    lemma_kinds(ops);
    list::lemma_last_of(ops, Kind::ShadowsHighlights);
    if list::current(ops, Kind::ShadowsHighlights) is Some {
        assert(ops[list::last_of(ops, Kind::ShadowsHighlights)].valid());
    }
}

/// What is current of a kind is of that kind.
proof fn lemma_kinds(operations: Seq<Operation>)
    ensures
        forall|kind: Kind|
            (#[trigger] list::current(operations, kind)) is Some ==> list::current(
                operations,
                kind,
            ).unwrap().kind() == kind,
{
    assert forall|kind: Kind|
        (#[trigger] list::current(operations, kind)) is Some implies list::current(
        operations,
        kind,
    ).unwrap().kind() == kind by {
        list::lemma_last_of(operations, kind);
    }
}

/// Bringing a valid document up to date leaves a valid document.
pub proof fn upgrading_keeps_a_document_valid(document: DocumentView)
    requires
        document.valid(),
    ensures
        migrate::upgraded(document).valid(),
{
    lemma_upgraded_current(document.operations, document.schema_version, Kind::Rotate);
}

/// Bringing a sound document up to date leaves a sound document.
pub proof fn upgrading_keeps_a_document_sound(document: DocumentView)
    requires
        laws::sound(document),
    ensures
        laws::sound(migrate::upgraded(document)),
{
    lemma_upgraded_current(document.operations, document.schema_version, Kind::Rotate);
    let after = migrate::upgraded(document);
    let undo = document.history.undo;
    let redo = document.history.redo;
    assert forall|i: int| 0 <= i < after.history.undo.len() implies laws::step_is_sound(
        #[trigger] after.history.undo[i],
    ) by {
        let drop = undo.len() - after.history.undo.len();
        lemma_inverted_step_is_sound(undo[i + drop]);
    }
    assert forall|i: int| 0 <= i < after.history.redo.len() implies laws::step_is_sound(
        #[trigger] after.history.redo[i],
    ) by {
        let drop = redo.len() - after.history.redo.len();
        lemma_inverted_step_is_sound(redo[i + drop]);
    }
}

proof fn lemma_inverted_step_is_sound(step: Step)
    requires
        laws::step_is_sound(step),
    ensures
        laws::step_is_sound(migrate::inverted_step(step)),
{
    if step.whole {
        lemma_all_inverted_is_valid(step.before);
        lemma_all_inverted_is_valid(step.after);
    }
}

} // verus!
