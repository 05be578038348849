//! Commands that can be undone, and the bounded history of them.

use std::collections::VecDeque;

use vstd::prelude::*;

use crate::document::curve::ToneCurve;
use crate::document::list;
use crate::document::operation::Operation;
use crate::document::values::{CropRect, FrameColor, ShadowsHighlights, WhiteBalance};
use crate::number::scalar::Scalar;

verus! {

/// The number of commands that the history holds, both ways together.
pub const MAX_HISTORY_LEN: usize = 20;

/// A change that has been made, with what it changed from and to.
#[allow(inconsistent_fields)]
#[derive(Clone, Debug, PartialEq)]
pub enum Command {
    SetExposure { before: Scalar, after: Scalar },
    SetContrast { before: Scalar, after: Scalar },
    SetWhiteBalance { before: WhiteBalance, after: WhiteBalance },
    SetSaturation { before: Scalar, after: Scalar },
    SetVignette { before: Scalar, after: Scalar },
    SetSharpness { before: Scalar, after: Scalar },
    SetDenoise {
        before_luma: Scalar,
        before_color: Scalar,
        after_luma: Scalar,
        after_color: Scalar,
    },
    SetCrop { before: CropRect, after: CropRect },
    Rotate { before: u8, after: u8, crop_before: CropRect, crop_after: CropRect },
    SetStraighten { before: Scalar, after: Scalar },
    SetToneCurve { before: ToneCurve, after: ToneCurve },
    SetShadowsHighlights { before: ShadowsHighlights, after: ShadowsHighlights },
    SetFrame {
        before_width_pct: Scalar,
        before_color: FrameColor,
        after_width_pct: Scalar,
        after_color: FrameColor,
    },
    RestoreOriginal { before: Vec<Operation>, after: Vec<Operation> },
}

/// A command as a change of operations: one that replaces the whole list, or
/// one that sets single operations.
pub struct Step {
    pub whole: bool,
    pub before: Seq<Operation>,
    pub after: Seq<Operation>,
}

impl Step {
    /// The change of one operation.
    pub open spec fn single(before: Operation, after: Operation) -> Step {
        Step { whole: false, before: seq![before], after: seq![after] }
    }

    /// The operations after taking the change back.
    pub open spec fn undone(self, operations: Seq<Operation>) -> Seq<Operation> {
        if self.whole {
            self.before
        } else {
            all_tried(operations, self.before)
        }
    }

    /// The operations after making the change again.
    pub open spec fn redone(self, operations: Seq<Operation>) -> Seq<Operation> {
        if self.whole {
            self.after
        } else {
            all_tried(operations, self.after)
        }
    }
}

/// The list after setting an operation, if it is in range.
pub open spec fn tried(operations: Seq<Operation>, operation: Operation) -> Seq<Operation> {
    if operation.valid() {
        list::with(operations, operation)
    } else {
        operations
    }
}

/// The list after setting each of some operations that is in range.
pub open spec fn all_tried(operations: Seq<Operation>, changes: Seq<Operation>) -> Seq<Operation>
    decreases changes.len(),
{
    if changes.len() == 0 {
        operations
    } else {
        tried(all_tried(operations, changes.drop_last()), changes.last())
    }
}

impl View for Command {
    type V = Step;

    open spec fn view(&self) -> Step {
        match *self {
            Command::SetExposure { before, after } => Step::single(
                Operation::Exposure { ev: before },
                Operation::Exposure { ev: after },
            ),
            Command::SetContrast { before, after } => Step::single(
                Operation::Contrast { amount: before },
                Operation::Contrast { amount: after },
            ),
            Command::SetWhiteBalance { before, after } => Step::single(
                Operation::WhiteBalance { adjustment: before },
                Operation::WhiteBalance { adjustment: after },
            ),
            Command::SetSaturation { before, after } => Step::single(
                Operation::Saturation { amount: before },
                Operation::Saturation { amount: after },
            ),
            Command::SetVignette { before, after } => Step::single(
                Operation::Vignette { strength: before },
                Operation::Vignette { strength: after },
            ),
            Command::SetSharpness { before, after } => Step::single(
                Operation::Sharpness { amount: before },
                Operation::Sharpness { amount: after },
            ),
            Command::SetDenoise { before_luma, before_color, after_luma, after_color } =>
                Step::single(
                Operation::Denoise { luma_denoise: before_luma, color_denoise: before_color },
                Operation::Denoise { luma_denoise: after_luma, color_denoise: after_color },
            ),
            Command::SetCrop { before, after } => Step::single(
                Operation::Crop { rect: before },
                Operation::Crop { rect: after },
            ),
            Command::Rotate { before, after, crop_before, crop_after } => Step {
                whole: false,
                before: seq![
                    Operation::Rotate { quarter_turns: before },
                    Operation::Crop { rect: crop_before },
                ],
                after: seq![
                    Operation::Rotate { quarter_turns: after },
                    Operation::Crop { rect: crop_after },
                ],
            },
            Command::SetStraighten { before, after } => Step::single(
                Operation::Straighten { degrees: before },
                Operation::Straighten { degrees: after },
            ),
            Command::SetToneCurve { before, after } => Step::single(
                Operation::ToneCurve { curve: before },
                Operation::ToneCurve { curve: after },
            ),
            Command::SetShadowsHighlights { before, after } => Step::single(
                Operation::ShadowsHighlights { adjustment: before },
                Operation::ShadowsHighlights { adjustment: after },
            ),
            Command::SetFrame { before_width_pct, before_color, after_width_pct, after_color } =>
                Step::single(
                Operation::Frame { width_pct: before_width_pct, color: before_color },
                Operation::Frame { width_pct: after_width_pct, color: after_color },
            ),
            Command::RestoreOriginal { before, after } => Step {
                whole: true,
                before: before@,
                after: after@,
            },
        }
    }
}

/// Sets an operation, if it is in range.
fn try_set(operations: &mut Vec<Operation>, operation: Operation)
    ensures
        final(operations)@ == tried(old(operations)@, operation),
{
    if operation.check().is_ok() {
        list::set(operations, operation);
    }
}

/// Setting one operation.
proof fn lemma_one(operations: Seq<Operation>, change: Operation)
    ensures
        all_tried(operations, seq![change]) == tried(operations, change),
{
    reveal_with_fuel(all_tried, 2);
    assert(seq![change].drop_last() =~= Seq::empty());
}

/// Setting two operations.
proof fn lemma_two(operations: Seq<Operation>, first: Operation, second: Operation)
    ensures
        all_tried(operations, seq![first, second]) == tried(tried(operations, first), second),
{
    assert(seq![first, second].drop_last() =~= seq![first]);
    lemma_one(operations, first);
}

impl Command {
    /// Takes the change back.
    pub fn take_back(&self, operations: &mut Vec<Operation>)
        ensures
            final(operations)@ == self@.undone(old(operations)@),
    {
        proof {
            let start = old(operations)@;
            if let Command::Rotate { .. } = *self {
                lemma_two(start, self@.before[0], self@.before[1]);
            } else if let Command::RestoreOriginal { .. } = *self {
            } else {
                lemma_one(start, self@.before[0]);
            }
        }
        match self {
            Command::SetExposure { before, .. } => {
                try_set(operations, Operation::Exposure { ev: *before });
            },
            Command::SetContrast { before, .. } => {
                try_set(operations, Operation::Contrast { amount: *before });
            },
            Command::SetWhiteBalance { before, .. } => {
                try_set(operations, Operation::WhiteBalance { adjustment: *before });
            },
            Command::SetSaturation { before, .. } => {
                try_set(operations, Operation::Saturation { amount: *before });
            },
            Command::SetVignette { before, .. } => {
                try_set(operations, Operation::Vignette { strength: *before });
            },
            Command::SetSharpness { before, .. } => {
                try_set(operations, Operation::Sharpness { amount: *before });
            },
            Command::SetDenoise { before_luma, before_color, .. } => {
                try_set(
                    operations,
                    Operation::Denoise { luma_denoise: *before_luma, color_denoise: *before_color },
                );
            },
            Command::SetCrop { before, .. } => {
                try_set(operations, Operation::Crop { rect: *before });
            },
            Command::Rotate { before, crop_before, .. } => {
                try_set(operations, Operation::Rotate { quarter_turns: *before });
                try_set(operations, Operation::Crop { rect: *crop_before });
            },
            Command::SetStraighten { before, .. } => {
                try_set(operations, Operation::Straighten { degrees: *before });
            },
            Command::SetToneCurve { before, .. } => {
                try_set(operations, Operation::ToneCurve { curve: *before });
            },
            Command::SetShadowsHighlights { before, .. } => {
                try_set(operations, Operation::ShadowsHighlights { adjustment: *before });
            },
            Command::SetFrame { before_width_pct, before_color, .. } => {
                try_set(
                    operations,
                    Operation::Frame { width_pct: *before_width_pct, color: *before_color },
                );
            },
            Command::RestoreOriginal { before, .. } => {
                *operations = list::copied(before);
            },
        }
    }

    /// Makes the change again.
    pub fn make_again(&self, operations: &mut Vec<Operation>)
        ensures
            final(operations)@ == self@.redone(old(operations)@),
    {
        proof {
            let start = old(operations)@;
            if let Command::Rotate { .. } = *self {
                lemma_two(start, self@.after[0], self@.after[1]);
            } else if let Command::RestoreOriginal { .. } = *self {
            } else {
                lemma_one(start, self@.after[0]);
            }
        }
        match self {
            Command::SetExposure { after, .. } => {
                try_set(operations, Operation::Exposure { ev: *after });
            },
            Command::SetContrast { after, .. } => {
                try_set(operations, Operation::Contrast { amount: *after });
            },
            Command::SetWhiteBalance { after, .. } => {
                try_set(operations, Operation::WhiteBalance { adjustment: *after });
            },
            Command::SetSaturation { after, .. } => {
                try_set(operations, Operation::Saturation { amount: *after });
            },
            Command::SetVignette { after, .. } => {
                try_set(operations, Operation::Vignette { strength: *after });
            },
            Command::SetSharpness { after, .. } => {
                try_set(operations, Operation::Sharpness { amount: *after });
            },
            Command::SetDenoise { after_luma, after_color, .. } => {
                try_set(
                    operations,
                    Operation::Denoise { luma_denoise: *after_luma, color_denoise: *after_color },
                );
            },
            Command::SetCrop { after, .. } => {
                try_set(operations, Operation::Crop { rect: *after });
            },
            Command::Rotate { after, crop_after, .. } => {
                try_set(operations, Operation::Rotate { quarter_turns: *after });
                try_set(operations, Operation::Crop { rect: *crop_after });
            },
            Command::SetStraighten { after, .. } => {
                try_set(operations, Operation::Straighten { degrees: *after });
            },
            Command::SetToneCurve { after, .. } => {
                try_set(operations, Operation::ToneCurve { curve: *after });
            },
            Command::SetShadowsHighlights { after, .. } => {
                try_set(operations, Operation::ShadowsHighlights { adjustment: *after });
            },
            Command::SetFrame { after_width_pct, after_color, .. } => {
                try_set(
                    operations,
                    Operation::Frame { width_pct: *after_width_pct, color: *after_color },
                );
            },
            Command::RestoreOriginal { after, .. } => {
                *operations = list::copied(after);
            },
        }
    }
}

impl Command {
    /// A copy of the command.
    pub fn duplicate(&self) -> (copy: Command)
        ensures
            copy@ == self@,
    {
        match self {
            Command::SetExposure { before, after } => Command::SetExposure {
                before: *before,
                after: *after,
            },
            Command::SetContrast { before, after } => Command::SetContrast {
                before: *before,
                after: *after,
            },
            Command::SetWhiteBalance { before, after } => Command::SetWhiteBalance {
                before: *before,
                after: *after,
            },
            Command::SetSaturation { before, after } => Command::SetSaturation {
                before: *before,
                after: *after,
            },
            Command::SetVignette { before, after } => Command::SetVignette {
                before: *before,
                after: *after,
            },
            Command::SetSharpness { before, after } => Command::SetSharpness {
                before: *before,
                after: *after,
            },
            Command::SetDenoise { before_luma, before_color, after_luma, after_color } =>
                Command::SetDenoise {
                before_luma: *before_luma,
                before_color: *before_color,
                after_luma: *after_luma,
                after_color: *after_color,
            },
            Command::SetCrop { before, after } => Command::SetCrop {
                before: *before,
                after: *after,
            },
            Command::Rotate { before, after, crop_before, crop_after } => Command::Rotate {
                before: *before,
                after: *after,
                crop_before: *crop_before,
                crop_after: *crop_after,
            },
            Command::SetStraighten { before, after } => Command::SetStraighten {
                before: *before,
                after: *after,
            },
            Command::SetToneCurve { before, after } => Command::SetToneCurve {
                before: *before,
                after: *after,
            },
            Command::SetShadowsHighlights { before, after } => Command::SetShadowsHighlights {
                before: *before,
                after: *after,
            },
            Command::SetFrame { before_width_pct, before_color, after_width_pct, after_color } =>
                Command::SetFrame {
                before_width_pct: *before_width_pct,
                before_color: *before_color,
                after_width_pct: *after_width_pct,
                after_color: *after_color,
            },
            Command::RestoreOriginal { before, after } => Command::RestoreOriginal {
                before: list::copied(before),
                after: list::copied(after),
            },
        }
    }
}

/// What can be undone and what can be made again, the newest last.
#[derive(Clone, Debug, PartialEq)]
pub struct CommandHistory {
    pub undo: VecDeque<Command>,
    pub redo: VecDeque<Command>,
}

/// The history as steps.
pub struct Timeline {
    pub undo: Seq<Step>,
    pub redo: Seq<Step>,
}

impl View for CommandHistory {
    type V = Timeline;

    open spec fn view(&self) -> Timeline {
        Timeline { undo: steps(self.undo@), redo: steps(self.redo@) }
    }
}

/// Commands as steps.
pub open spec fn steps(commands: Seq<Command>) -> Seq<Step> {
    Seq::new(commands.len(), |i: int| commands[i]@)
}

/// How many of the commands to undo stay within the bound: where both
/// directions hold more than half of the bound they keep half each, else the
/// shorter one stays whole.
pub open spec fn kept_undo(undo: int, redo: int) -> int {
    let half = MAX_HISTORY_LEN as int / 2;
    if undo + redo <= MAX_HISTORY_LEN || undo <= half {
        undo
    } else if redo <= half {
        MAX_HISTORY_LEN - redo
    } else {
        half
    }
}

/// How many of the commands to make again stay within the bound.
pub open spec fn kept_redo(undo: int, redo: int) -> int {
    let half = MAX_HISTORY_LEN as int / 2;
    if undo + redo <= MAX_HISTORY_LEN || redo <= half {
        redo
    } else if undo <= half {
        MAX_HISTORY_LEN - undo
    } else {
        half
    }
}

impl Timeline {
    pub open spec fn empty() -> Timeline {
        Timeline { undo: Seq::empty(), redo: Seq::empty() }
    }

    pub open spec fn bounded(self) -> bool {
        self.undo.len() + self.redo.len() <= MAX_HISTORY_LEN
    }

    /// The newest commands within the bound.
    pub open spec fn trimmed(self) -> Timeline {
        let undo = kept_undo(self.undo.len() as int, self.redo.len() as int);
        let redo = kept_redo(self.undo.len() as int, self.redo.len() as int);
        Timeline {
            undo: self.undo.skip(self.undo.len() - undo),
            redo: self.redo.skip(self.redo.len() - redo),
        }
    }

    /// A new command makes the undone ones unreachable.
    pub open spec fn pushed(self, step: Step) -> Timeline {
        (Timeline { undo: self.undo.push(step), redo: Seq::empty() }).trimmed()
    }
}

impl CommandHistory {
    /// A history of given commands.
    pub fn from_commands(undo: VecDeque<Command>, redo: VecDeque<Command>) -> (history:
        CommandHistory)
        ensures
            history@ == (Timeline { undo: steps(undo@), redo: steps(redo@) }),
    {
        CommandHistory { undo, redo }
    }

    #[must_use]
    pub fn can_undo(&self) -> (result: bool)
        ensures
            result == (self@.undo.len() > 0),
    {
        self.undo.len() > 0
    }

    #[must_use]
    pub fn can_redo(&self) -> (result: bool)
        ensures
            result == (self@.redo.len() > 0),
    {
        self.redo.len() > 0
    }

    #[must_use]
    pub fn undo_len(&self) -> (length: usize)
        ensures
            length == self@.undo.len(),
    {
        self.undo.len()
    }

    #[must_use]
    pub fn redo_len(&self) -> (length: usize)
        ensures
            length == self@.redo.len(),
    {
        self.redo.len()
    }

    /// Adds a command that has just been made.
    pub fn push(&mut self, command: Command)
        ensures
            final(self)@ == old(self)@.pushed(command@),
    {
        self.undo.push_back(command);
        self.redo.clear();
        assert(steps(self.undo@) =~= old(self)@.undo.push(command@));
        assert(steps(self.redo@) =~= Seq::empty());
        self.trim_to_limit();
    }

    /// Drops the oldest commands beyond the bound.
    pub fn trim_to_limit(&mut self)
        ensures
            final(self)@ == old(self)@.trimmed(),
    {
        let ghost undo = self.undo@;
        let ghost redo = self.redo@;
        while self.undo.len() > MAX_HISTORY_LEN || self.redo.len() > MAX_HISTORY_LEN
            - self.undo.len()
            invariant
                undo == old(self).undo@,
                redo == old(self).redo@,
                self.undo@.len() <= undo.len(),
                self.redo@.len() <= redo.len(),
                self.undo@ == undo.skip(undo.len() - self.undo@.len()),
                self.redo@ == redo.skip(redo.len() - self.redo@.len()),
                kept_undo(self.undo@.len() as int, self.redo@.len() as int) == kept_undo(
                    undo.len() as int,
                    redo.len() as int,
                ),
                kept_redo(self.undo@.len() as int, self.redo@.len() as int) == kept_redo(
                    undo.len() as int,
                    redo.len() as int,
                ),
            decreases self.undo@.len() + self.redo@.len(),
        {
            if self.redo.len() == 0 || self.undo.len() >= self.redo.len() {
                self.undo.pop_front();
                assert(self.undo@ =~= undo.skip(undo.len() - self.undo@.len()));
            } else {
                self.redo.pop_front();
                assert(self.redo@ =~= redo.skip(redo.len() - self.redo@.len()));
            }
        }
        assert(self@.undo =~= old(self)@.trimmed().undo);
        assert(self@.redo =~= old(self)@.trimmed().redo);
    }
}

/// A copy of a row of commands.
fn copied_commands(commands: &VecDeque<Command>) -> (copy: VecDeque<Command>)
    ensures
        steps(copy@) == steps(commands@),
{
    let mut copy: VecDeque<Command> = VecDeque::new();
    let mut i: usize = 0;
    while i < commands.len()
        invariant
            i <= commands.len(),
            copy@.len() == i,
            forall|j: int| 0 <= j < i ==> (#[trigger] copy@[j])@ == commands@[j]@,
        decreases commands.len() - i,
    {
        copy.push_back(commands[i].duplicate());
        i = i + 1;
    }
    assert(steps(copy@) =~= steps(commands@));
    copy
}

impl CommandHistory {
    /// A copy of the history.
    pub fn duplicate(&self) -> (copy: CommandHistory)
        ensures
            copy@ == self@,
    {
        CommandHistory { undo: copied_commands(&self.undo), redo: copied_commands(&self.redo) }
    }
}

impl Default for CommandHistory {
    fn default() -> (history: CommandHistory)
        ensures
            history@ == Timeline::empty(),
    {
        let history = CommandHistory { undo: VecDeque::new(), redo: VecDeque::new() };
        assert(history@.undo =~= Seq::empty());
        assert(history@.redo =~= Seq::empty());
        history
    }
}

} // verus!
