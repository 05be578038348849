//! Bringing documents of older forms up to date.

use std::collections::VecDeque;

use vstd::prelude::*;

use crate::document::history;
use crate::document::history::{Command, Step, Timeline};
use crate::document::list;
use crate::document::operation::{DocumentError, Kind, Operation, PROJECT_SCHEMA_VERSION};
use crate::document::project::{DocumentView, ProjectDocument};
use crate::document::values::{FrameColor, ShadowsHighlights, WhiteBalance};
use crate::number::constants;
use crate::number::scalar::Scalar;

verus! {

/// Whether an operation of a kind is to be added to a document of an older
/// form.
pub open spec fn lacks(operations: Seq<Operation>, kind: Kind) -> bool {
    list::last_of(operations, kind) < 0
}

/// Behind the last operation of a kind, or at the end.
pub open spec fn behind(operations: Seq<Operation>, kind: Kind) -> int {
    let i = list::last_of(operations, kind);
    if i >= 0 {
        i + 1
    } else {
        operations.len() as int
    }
}

/// Before the first operation of a kind, or at the end.
pub open spec fn ahead_of(operations: Seq<Operation>, kind: Kind) -> int {
    let i = list::first_of(operations, kind);
    if i >= 0 {
        i
    } else {
        operations.len() as int
    }
}

/// Behind the last operation of one kind, or before the first of another, or
/// at the end.
pub open spec fn between(operations: Seq<Operation>, after: Kind, before: Kind) -> int {
    if list::last_of(operations, after) >= 0 {
        list::last_of(operations, after) + 1
    } else {
        ahead_of(operations, before)
    }
}

/// The list with a neutral operation at a place, where it is missing.
pub open spec fn completed(
    operations: Seq<Operation>,
    needed: bool,
    place: int,
    neutral: Operation,
) -> Seq<Operation> {
    if needed && lacks(operations, neutral.kind()) {
        operations.insert(place, neutral)
    } else {
        operations
    }
}

/// The operation with raised and lowered shadows and highlights exchanged.
pub open spec fn inverted(operation: Operation) -> Operation {
    match operation {
        Operation::ShadowsHighlights { adjustment } => Operation::ShadowsHighlights {
            adjustment: ShadowsHighlights {
                shadows: adjustment.shadows.negated(),
                highlights: adjustment.highlights.negated(),
            },
        },
        other => other,
    }
}

pub open spec fn all_inverted(operations: Seq<Operation>) -> Seq<Operation> {
    Seq::new(operations.len(), |i: int| inverted(operations[i]))
}

pub open spec fn inverted_step(step: Step) -> Step {
    Step { whole: step.whole, before: all_inverted(step.before), after: all_inverted(step.after) }
}

pub open spec fn all_inverted_steps(steps: Seq<Step>) -> Seq<Step> {
    Seq::new(steps.len(), |i: int| inverted_step(steps[i]))
}

pub open spec fn neutral_white_balance() -> Operation {
    Operation::WhiteBalance { adjustment: WhiteBalance::neutral() }
}

pub open spec fn neutral_saturation() -> Operation {
    Operation::Saturation { amount: Scalar { bits: constants::ZERO } }
}

pub open spec fn neutral_sharpness() -> Operation {
    Operation::Sharpness { amount: Scalar { bits: constants::ZERO } }
}

pub open spec fn neutral_contrast() -> Operation {
    Operation::Contrast { amount: Scalar { bits: constants::ZERO } }
}

pub open spec fn neutral_frame() -> Operation {
    Operation::Frame {
        width_pct: Scalar { bits: constants::ZERO },
        color: FrameColor::plain_white(),
    }
}

pub open spec fn neutral_straighten() -> Operation {
    Operation::Straighten { degrees: Scalar { bits: constants::ZERO } }
}

pub open spec fn neutral_shadows_highlights() -> Operation {
    Operation::ShadowsHighlights { adjustment: ShadowsHighlights::neutral() }
}

pub open spec fn neutral_vignette() -> Operation {
    Operation::Vignette { strength: Scalar { bits: constants::ZERO } }
}

/// White balance stands before exposure.
pub open spec fn with_white_balance(ops: Seq<Operation>, version: u32) -> Seq<Operation> {
    completed(ops, version < 6, ahead_of(ops, Kind::Exposure), neutral_white_balance())
}

/// Saturation stands behind the tone curve.
pub open spec fn with_saturation(ops: Seq<Operation>, version: u32) -> Seq<Operation> {
    completed(ops, version < 7, behind(ops, Kind::ToneCurve), neutral_saturation())
}

/// Sharpness stands behind saturation.
pub open spec fn with_sharpness(ops: Seq<Operation>, version: u32) -> Seq<Operation> {
    completed(ops, version < 8, behind(ops, Kind::Saturation), neutral_sharpness())
}

/// Contrast stands behind exposure.
pub open spec fn with_contrast(ops: Seq<Operation>, version: u32) -> Seq<Operation> {
    completed(ops, version < 9, behind(ops, Kind::Exposure), neutral_contrast())
}

/// The frame stands at the end.
pub open spec fn with_frame(ops: Seq<Operation>, version: u32) -> Seq<Operation> {
    completed(ops, version < 10, ops.len() as int, neutral_frame())
}

/// Straightening stands behind rotation, or at the front.
pub open spec fn with_straighten(ops: Seq<Operation>, version: u32) -> Seq<Operation> {
    completed(ops, version < 12, list::first_of(ops, Kind::Rotate) + 1, neutral_straighten())
}

/// Shadows and highlights stand between exposure and contrast.
pub open spec fn with_shadows_highlights(ops: Seq<Operation>, version: u32) -> Seq<Operation> {
    completed(
        ops,
        version < 14,
        between(ops, Kind::Exposure, Kind::Contrast),
        neutral_shadows_highlights(),
    )
}

/// The vignette stands between saturation and sharpness.
pub open spec fn with_vignette(ops: Seq<Operation>, version: u32) -> Seq<Operation> {
    completed(
        ops,
        version < 18,
        between(ops, Kind::Saturation, Kind::Sharpness),
        neutral_vignette(),
    )
}

/// The operations before the directions of shadows and highlights are turned.
pub open spec fn filled(ops: Seq<Operation>, version: u32) -> Seq<Operation> {
    let ops = with_white_balance(ops, version);
    let ops = with_saturation(ops, version);
    let ops = with_sharpness(ops, version);
    let ops = with_contrast(ops, version);
    let ops = with_frame(ops, version);
    let ops = with_straighten(ops, version);
    with_shadows_highlights(ops, version)
}

/// The operations in the newest form.
pub open spec fn upgraded_operations(ops: Seq<Operation>, version: u32) -> Seq<Operation> {
    let ops = filled(ops, version);
    let ops = if version < 15 {
        all_inverted(ops)
    } else {
        ops
    };
    with_vignette(ops, version)
}

/// The history in the newest form.
pub open spec fn upgraded_history(history: Timeline, version: u32) -> Timeline {
    let history = if version < 15 {
        Timeline {
            undo: all_inverted_steps(history.undo),
            redo: all_inverted_steps(history.redo),
        }
    } else {
        history
    };
    history.trimmed()
}

/// The document in the newest form.
pub open spec fn upgraded(document: DocumentView) -> DocumentView {
    DocumentView {
        schema_version: PROJECT_SCHEMA_VERSION,
        operations: upgraded_operations(document.operations, document.schema_version),
        history: upgraded_history(document.history, document.schema_version),
        ..document
    }
}

/// The place behind the last operation of a kind.
fn place_behind(operations: &Vec<Operation>, kind: Kind) -> (place: usize)
    ensures
        place == behind(operations@, kind),
        place <= operations.len(),
{
    match list::find_last(operations, kind) {
        Some(i) => i + 1,
        None => operations.len(),
    }
}

/// The place before the first operation of a kind.
fn place_ahead_of(operations: &Vec<Operation>, kind: Kind) -> (place: usize)
    ensures
        place == ahead_of(operations@, kind),
        place <= operations.len(),
{
    match list::find_first(operations, kind) {
        Some(i) => i,
        None => operations.len(),
    }
}

/// The place between two kinds.
fn place_between(operations: &Vec<Operation>, after: Kind, before: Kind) -> (place: usize)
    ensures
        place == between(operations@, after, before),
        place <= operations.len(),
{
    match list::find_last(operations, after) {
        Some(i) => i + 1,
        None => place_ahead_of(operations, before),
    }
}

/// Adds a neutral operation at a place, where it is missing.
fn complete(operations: &mut Vec<Operation>, needed: bool, place: usize, neutral: Operation)
    requires
        place <= old(operations).len(),
    ensures
        final(operations)@ == completed(old(operations)@, needed, place as int, neutral),
{
    if needed && list::find_last(operations, neutral.which()).is_none() {
        operations.insert(place, neutral);
    }
}

/// Exchanges raised and lowered shadows and highlights.
fn invert_shadows_highlights(operation: Operation) -> (result: Operation)
    ensures
        result == inverted(operation),
{
    match operation {
        Operation::ShadowsHighlights { adjustment } => Operation::ShadowsHighlights {
            adjustment: ShadowsHighlights {
                shadows: adjustment.shadows.negate(),
                highlights: adjustment.highlights.negate(),
            },
        },
        other => other,
    }
}

fn invert_all(operations: &mut Vec<Operation>)
    ensures
        final(operations)@ == all_inverted(old(operations)@),
{
    let mut i: usize = 0;
    while i < operations.len()
        invariant
            i <= operations.len(),
            operations.len() == old(operations).len(),
            forall|j: int| 0 <= j < i ==> operations[j] == inverted(#[trigger] old(operations)@[j]),
            forall|j: int|
                i <= j < operations.len() ==> operations[j] == #[trigger] old(operations)@[j],
        decreases operations.len() - i,
    {
        let operation: Operation = invert_shadows_highlights(operations[i]);
        operations.set(i, operation);
        i = i + 1;
    }
    assert(operations@ =~= all_inverted(old(operations)@));
}

fn invert_shadows_highlights_command(command: Command) -> (result: Command)
    ensures
        result@ == inverted_step(command@),
{
    match command {
        Command::SetShadowsHighlights { before, after } => {
            let result = Command::SetShadowsHighlights {
                before: ShadowsHighlights {
                    shadows: before.shadows.negate(),
                    highlights: before.highlights.negate(),
                },
                after: ShadowsHighlights {
                    shadows: after.shadows.negate(),
                    highlights: after.highlights.negate(),
                },
            };
            assert(result@.before =~= inverted_step(command@).before);
            assert(result@.after =~= inverted_step(command@).after);
            result
        },
        Command::RestoreOriginal { before, after } => {
            let mut before: Vec<Operation> = before;
            let mut after: Vec<Operation> = after;
            invert_all(&mut before);
            invert_all(&mut after);
            Command::RestoreOriginal { before, after }
        },
        other => {
            assert(other@.before =~= inverted_step(other@).before);
            assert(other@.after =~= inverted_step(other@).after);
            other
        },
    }
}

fn invert_commands(commands: &mut VecDeque<Command>)
    ensures
        history::steps(final(commands)@) == all_inverted_steps(history::steps(old(commands)@)),
{
    let count: usize = commands.len();
    let ghost start = commands@;
    let mut i: usize = 0;
    while i < count
        invariant
            i <= count,
            count == start.len(),
            start == old(commands)@,
            commands@.len() == count,
            forall|j: int| 0 <= j < count - i ==> #[trigger] commands@[j] == start[j + i],
            forall|j: int|
                count - i <= j < count ==> (#[trigger] commands@[j])@ == inverted_step(
                    start[j - (count - i)]@,
                ),
        decreases count - i,
    {
        let ghost before = commands@;
        match commands.pop_front() {
            Some(command) => {
                let turned: Command = invert_shadows_highlights_command(command);
                commands.push_back(turned);
                assert forall|j: int| 0 <= j < count - (i + 1) implies #[trigger] commands@[j]
                    == start[j + (i + 1)] by {
                    assert(commands@[j] == before[j + 1]);
                }
                assert forall|j: int| count - (i + 1) <= j < count implies (
                #[trigger] commands@[j])@ == inverted_step(start[j - (count - (i + 1))]@) by {
                    if j < count - 1 {
                        assert(commands@[j] == before[j + 1]);
                    }
                }
            },
            None => {},
        }
        i = i + 1;
    }
    assert(history::steps(commands@) =~= all_inverted_steps(history::steps(start))) by {
        assert forall|j: int| 0 <= j < count implies history::steps(commands@)[j]
            == all_inverted_steps(history::steps(start))[j] by {
            assert(commands@[j]@ == inverted_step(start[j]@));
        }
    }
}

impl ProjectDocument {
    /// Brings a valid document into the newest form: operations that an older
    /// form did not have are added where they are rendered, without effect.
    pub fn upgrade_to_latest(&mut self) -> (result: Result<(), DocumentError>)
        ensures
            result is Ok <==> old(self)@.valid(),
            result matches Err(error) ==> old(self)@.is_error(error) && final(self)@ == old(self)@,
            result is Ok ==> final(self)@ == upgraded(old(self)@),
    {
        if let Err(error) = self.validate() {
            return Err(error);
        }
        let version: u32 = self.schema_version;
        let zero: Scalar = Scalar { bits: constants::ZERO };
        let place: usize = place_ahead_of(&self.operations, Kind::Exposure);
        complete(
            &mut self.operations,
            version < 6,
            place,
            Operation::WhiteBalance { adjustment: WhiteBalance::identity() },
        );
        let place: usize = place_behind(&self.operations, Kind::ToneCurve);
        complete(
            &mut self.operations,
            version < 7,
            place,
            Operation::Saturation { amount: zero },
        );
        let place: usize = place_behind(&self.operations, Kind::Saturation);
        complete(&mut self.operations, version < 8, place, Operation::Sharpness { amount: zero });
        let place: usize = place_behind(&self.operations, Kind::Exposure);
        complete(&mut self.operations, version < 9, place, Operation::Contrast { amount: zero });
        let place: usize = self.operations.len();
        complete(
            &mut self.operations,
            version < 10,
            place,
            Operation::Frame { width_pct: zero, color: FrameColor::white() },
        );
        let place: usize = match list::find_first(&self.operations, Kind::Rotate) {
            Some(i) => i + 1,
            None => 0,
        };
        complete(
            &mut self.operations,
            version < 12,
            place,
            Operation::Straighten { degrees: zero },
        );
        let place: usize = place_between(&self.operations, Kind::Exposure, Kind::Contrast);
        complete(
            &mut self.operations,
            version < 14,
            place,
            Operation::ShadowsHighlights { adjustment: ShadowsHighlights::identity() },
        );
        assert(self.operations@ == filled(old(self)@.operations, version));
        if version < 15 {
            invert_all(&mut self.operations);
            invert_commands(&mut self.history.undo);
            invert_commands(&mut self.history.redo);
        }
        let place: usize = place_between(&self.operations, Kind::Saturation, Kind::Sharpness);
        complete(&mut self.operations, version < 18, place, Operation::Vignette { strength: zero });
        self.history.trim_to_limit();
        self.schema_version = PROJECT_SCHEMA_VERSION;
        Ok(())
    }
}

} // verus!
