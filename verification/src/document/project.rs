//! The project document.

use vstd::prelude::*;

use crate::document::curve::ToneCurve;
use crate::document::history::{Command, CommandHistory, Step, Timeline};
use crate::document::laws;
use crate::document::list;
use crate::document::operation::{DocumentError, Kind, Operation, PROJECT_SCHEMA_VERSION};
use crate::document::turn_laws;
use crate::document::values;
use crate::document::values::{
    is_distinct, CropRect, FrameColor, ShadowsHighlights, SourceReference, ViewState,
    WhiteBalance,
};
use crate::number::constants;
use crate::number::scalar::Scalar;

verus! {

/// A photo and what is done to it.
#[derive(Clone, Debug, PartialEq)]
pub struct ProjectDocument {
    pub schema_version: u32,
    pub source: SourceReference,
    pub operations: Vec<Operation>,
    pub view: ViewState,
    pub history: CommandHistory,
}

/// The document as the mathematics of it.
pub struct DocumentView {
    pub schema_version: u32,
    pub source: SourceReference,
    pub operations: Seq<Operation>,
    pub view: ViewState,
    pub history: Timeline,
}

impl View for ProjectDocument {
    type V = DocumentView;

    open spec fn view(&self) -> DocumentView {
        DocumentView {
            schema_version: self.schema_version,
            source: self.source,
            operations: self.operations@,
            view: self.view,
            history: self.history@,
        }
    }
}

impl DocumentView {
    /// A document of a form that is known, with all operations in range.
    pub open spec fn valid(self) -> bool {
        self.schema_version <= PROJECT_SCHEMA_VERSION && list::all_valid(self.operations)
    }

    /// The error for a document that is not valid: an unknown form, or the
    /// first operation out of range.
    pub open spec fn is_error(self, error: DocumentError) -> bool {
        if self.schema_version > PROJECT_SCHEMA_VERSION {
            error == (DocumentError::UnsupportedSchema {
                found: self.schema_version,
                supported: PROJECT_SCHEMA_VERSION,
            })
        } else {
            exists|i: int|
                {
                    &&& 0 <= i < self.operations.len()
                    &&& !(#[trigger] self.operations[i]).valid()
                    &&& error == self.operations[i].error()
                    &&& forall|j: int| 0 <= j < i ==> (#[trigger] self.operations[j]).valid()
                }
        }
    }

    /// The document with an operation set.
    pub open spec fn set(self, operation: Operation) -> DocumentView {
        DocumentView { operations: list::with(self.operations, operation), ..self }
    }

    /// The document after an operation has been set for good: with a new
    /// command where something changed.
    pub open spec fn committed(
        self,
        before: Operation,
        after: Operation,
        changed: bool,
    ) -> DocumentView {
        DocumentView {
            operations: list::with(self.operations, after),
            history: if changed {
                self.history.pushed(Step::single(before, after))
            } else {
                self.history
            },
            ..self
        }
    }

    /// The document after undoing the newest command.
    pub open spec fn undone(self) -> DocumentView {
        let step = self.history.undo.last();
        DocumentView {
            operations: step.undone(self.operations),
            history: Timeline {
                undo: self.history.undo.drop_last(),
                redo: self.history.redo.push(step),
            },
            ..self
        }
    }

    /// The document after making the newest undone command again.
    pub open spec fn redone(self) -> DocumentView {
        let step = self.history.redo.last();
        DocumentView {
            operations: step.redone(self.operations),
            history: Timeline {
                undo: self.history.undo.push(step),
                redo: self.history.redo.drop_last(),
            },
            ..self
        }
    }

    /// The quarter turns after some more of them.
    pub open spec fn turns_after(self, delta: int) -> u8 {
        ((self.turns() + delta) % 4) as u8
    }

    /// The step that some quarter turns to the right are.
    pub open spec fn rotation_step(self, delta: int) -> Step {
        Step {
            whole: false,
            before: seq![
                Operation::Rotate { quarter_turns: self.turns() },
                Operation::Crop { rect: self.crop() },
            ],
            after: seq![
                Operation::Rotate { quarter_turns: self.turns_after(delta) },
                Operation::Crop { rect: turned(self.crop(), delta) },
            ],
        }
    }

    /// The document after some quarter turns to the right, the crop with it.
    pub open spec fn rotated(self, delta: int) -> DocumentView {
        let after = self.turns_after(delta);
        DocumentView {
            history: if self.turns() != after {
                self.history.pushed(self.rotation_step(delta))
            } else {
                self.history
            },
            ..self.set(Operation::Rotate { quarter_turns: after }).set(
                Operation::Crop { rect: turned(self.crop(), delta) },
            )
        }
    }

    /// Whether anything is done to the photo.
    pub open spec fn is_touched(self) -> bool {
        !list::same_operations(self.operations, list::untouched())
    }

    /// The document after every adjustment has been taken back.
    pub open spec fn restored(self) -> DocumentView {
        DocumentView {
            operations: list::untouched(),
            history: self.history.pushed(
                Step { whole: true, before: self.operations, after: list::untouched() },
            ),
            ..self
        }
    }

    /// The operation of a kind that counts, or the one without effect.
    pub open spec fn operation_of(self, kind: Kind) -> Operation {
        match list::current(self.operations, kind) {
            Some(operation) => operation,
            None => neutral(kind),
        }
    }

    /// The document of an untouched photo.
    pub open spec fn fresh(source: SourceReference) -> DocumentView {
        DocumentView {
            schema_version: PROJECT_SCHEMA_VERSION,
            source,
            operations: list::untouched(),
            view: ViewState::initial(),
            history: Timeline::empty(),
        }
    }

    pub open spec fn exposure(self) -> Scalar {
        match list::current(self.operations, Kind::Exposure) {
            Some(Operation::Exposure { ev }) => ev,
            _ => Scalar { bits: constants::ZERO },
        }
    }

    pub open spec fn contrast_amount(self) -> Scalar {
        match list::current(self.operations, Kind::Contrast) {
            Some(Operation::Contrast { amount }) => amount,
            _ => Scalar { bits: constants::ZERO },
        }
    }

    pub open spec fn shadow_and_highlight(self) -> ShadowsHighlights {
        match list::current(self.operations, Kind::ShadowsHighlights) {
            Some(Operation::ShadowsHighlights { adjustment }) => adjustment,
            _ => ShadowsHighlights::neutral(),
        }
    }

    pub open spec fn balance(self) -> WhiteBalance {
        match list::current(self.operations, Kind::WhiteBalance) {
            Some(Operation::WhiteBalance { adjustment }) => adjustment,
            _ => WhiteBalance::neutral(),
        }
    }

    pub open spec fn turns(self) -> u8 {
        match list::current(self.operations, Kind::Rotate) {
            Some(Operation::Rotate { quarter_turns }) => quarter_turns,
            _ => 0u8,
        }
    }

    pub open spec fn crop(self) -> CropRect {
        match list::current(self.operations, Kind::Crop) {
            Some(Operation::Crop { rect }) => rect,
            _ => CropRect::whole(),
        }
    }

    pub open spec fn curve(self) -> ToneCurve {
        match list::current(self.operations, Kind::ToneCurve) {
            Some(Operation::ToneCurve { curve }) => curve,
            _ => ToneCurve::straight(),
        }
    }

    pub open spec fn saturation_amount(self) -> Scalar {
        match list::current(self.operations, Kind::Saturation) {
            Some(Operation::Saturation { amount }) => amount,
            _ => Scalar { bits: constants::ZERO },
        }
    }

    pub open spec fn vignette_strength(self) -> Scalar {
        match list::current(self.operations, Kind::Vignette) {
            Some(Operation::Vignette { strength }) => strength,
            _ => Scalar { bits: constants::ZERO },
        }
    }

    pub open spec fn sharpness_amount(self) -> Scalar {
        match list::current(self.operations, Kind::Sharpness) {
            Some(Operation::Sharpness { amount }) => amount,
            _ => Scalar { bits: constants::ZERO },
        }
    }

    pub open spec fn denoise_amounts(self) -> (Scalar, Scalar) {
        match list::current(self.operations, Kind::Denoise) {
            Some(Operation::Denoise { luma_denoise, color_denoise }) => (luma_denoise, color_denoise),
            _ => (Scalar { bits: constants::ZERO }, Scalar { bits: constants::ZERO }),
        }
    }

    pub open spec fn border(self) -> (Scalar, FrameColor) {
        match list::current(self.operations, Kind::Frame) {
            Some(Operation::Frame { width_pct, color }) => (width_pct, color),
            _ => (Scalar { bits: constants::ZERO }, FrameColor::plain_white()),
        }
    }

    pub open spec fn degrees(self) -> Scalar {
        match list::current(self.operations, Kind::Straighten) {
            Some(Operation::Straighten { degrees }) => degrees,
            _ => Scalar { bits: constants::ZERO },
        }
    }
}

/// What comes of setting an operation.
pub open spec fn outcome(operation: Operation) -> Result<(), DocumentError> {
    if operation.valid() {
        Ok(())
    } else {
        Err(operation.error())
    }
}

/// What comes of a change from one operation to another.
pub open spec fn change_outcome(before: Operation, after: Operation) -> Result<(), DocumentError> {
    if !before.valid() {
        Err(before.error())
    } else {
        outcome(after)
    }
}

/// Whether a change is worth a command in the history.
pub open spec fn notable(before: Operation, after: Operation) -> bool {
    match (before, after) {
        (Operation::Straighten { degrees: a }, Operation::Straighten { degrees: b }) => values::distinct(
            a,
            b,
        ),
        (Operation::Crop { rect: a }, Operation::Crop { rect: b }) => !a.same(b),
        (
            Operation::Denoise { luma_denoise: a, color_denoise: c },
            Operation::Denoise { luma_denoise: b, color_denoise: d },
        ) => values::distinct(a, b) || values::distinct(c, d),
        (
            Operation::WhiteBalance { adjustment: a },
            Operation::WhiteBalance { adjustment: b },
        ) => !a.same(b),
        (Operation::Exposure { ev: a }, Operation::Exposure { ev: b }) => values::distinct(a, b),
        (Operation::Contrast { amount: a }, Operation::Contrast { amount: b }) => values::distinct(a, b),
        (
            Operation::ShadowsHighlights { adjustment: a },
            Operation::ShadowsHighlights { adjustment: b },
        ) => !a.same(b),
        (Operation::ToneCurve { curve: a }, Operation::ToneCurve { curve: b }) => !a.same(b),
        (Operation::Saturation { amount: a }, Operation::Saturation { amount: b }) => values::distinct(
            a,
            b,
        ),
        (Operation::Vignette { strength: a }, Operation::Vignette { strength: b }) => values::distinct(
            a,
            b,
        ),
        (Operation::Sharpness { amount: a }, Operation::Sharpness { amount: b }) => values::distinct(a, b),
        (
            Operation::Frame { width_pct: a, color: c },
            Operation::Frame { width_pct: b, color: d },
        ) => values::distinct(a, b) || c != d,
        _ => false,
    }
}

/// The operation of a kind that has no effect.
pub open spec fn neutral(kind: Kind) -> Operation {
    let zero = Scalar { bits: constants::ZERO };
    match kind {
        Kind::Rotate => Operation::Rotate { quarter_turns: 0 },
        Kind::Straighten => Operation::Straighten { degrees: zero },
        Kind::Crop => Operation::Crop { rect: CropRect::whole() },
        Kind::Denoise => Operation::Denoise { luma_denoise: zero, color_denoise: zero },
        Kind::WhiteBalance => Operation::WhiteBalance { adjustment: WhiteBalance::neutral() },
        Kind::Exposure => Operation::Exposure { ev: zero },
        Kind::Contrast => Operation::Contrast { amount: zero },
        Kind::ShadowsHighlights => Operation::ShadowsHighlights {
            adjustment: ShadowsHighlights::neutral(),
        },
        Kind::ToneCurve => Operation::ToneCurve { curve: ToneCurve::straight() },
        Kind::Saturation => Operation::Saturation { amount: zero },
        Kind::Vignette => Operation::Vignette { strength: zero },
        Kind::Sharpness => Operation::Sharpness { amount: zero },
        Kind::Frame => Operation::Frame { width_pct: zero, color: FrameColor::plain_white() },
    }
}

/// Makes the operation of a kind that has no effect.
pub fn neutral_operation(kind: Kind) -> (operation: Operation)
    ensures
        operation == neutral(kind),
{
    let zero: Scalar = Scalar { bits: constants::ZERO };
    match kind {
        Kind::Rotate => Operation::Rotate { quarter_turns: 0 },
        Kind::Straighten => Operation::Straighten { degrees: zero },
        Kind::Crop => Operation::Crop { rect: CropRect::full() },
        Kind::Denoise => Operation::Denoise { luma_denoise: zero, color_denoise: zero },
        Kind::WhiteBalance => Operation::WhiteBalance { adjustment: WhiteBalance::identity() },
        Kind::Exposure => Operation::Exposure { ev: zero },
        Kind::Contrast => Operation::Contrast { amount: zero },
        Kind::ShadowsHighlights => Operation::ShadowsHighlights {
            adjustment: ShadowsHighlights::identity(),
        },
        Kind::ToneCurve => Operation::ToneCurve { curve: ToneCurve::identity() },
        Kind::Saturation => Operation::Saturation { amount: zero },
        Kind::Vignette => Operation::Vignette { strength: zero },
        Kind::Sharpness => Operation::Sharpness { amount: zero },
        Kind::Frame => Operation::Frame { width_pct: zero, color: FrameColor::white() },
    }
}

/// A crop after some quarter turns to the right.
pub open spec fn turned(rect: CropRect, quarter_turns: int) -> CropRect
    decreases quarter_turns,
{
    if quarter_turns <= 0 {
        rect
    } else {
        turned(rect, quarter_turns - 1).turned_right()
    }
}

impl ProjectDocument {
    #[must_use]
    pub fn new(source: SourceReference) -> (document: ProjectDocument)
        ensures
            document@ == DocumentView::fresh(source),
    {
        ProjectDocument {
            schema_version: PROJECT_SCHEMA_VERSION,
            source,
            operations: list::default_operations(),
            view: ViewState::default(),
            history: CommandHistory::default(),
        }
    }

    /// A copy of the document.
    pub fn duplicate(&self) -> (copy: ProjectDocument)
        ensures
            copy@ == self@,
    {
        ProjectDocument {
            schema_version: self.schema_version,
            source: self.source.duplicate(),
            operations: list::copied(&self.operations),
            view: self.view,
            history: self.history.duplicate(),
        }
    }

    /// Tests that the form is known and that every operation is in range.
    pub fn validate(&self) -> (result: Result<(), DocumentError>)
        ensures
            result is Ok <==> self@.valid(),
            result matches Err(error) ==> self@.is_error(error),
    {
        if self.schema_version > PROJECT_SCHEMA_VERSION {
            return Err(
                DocumentError::UnsupportedSchema {
                    found: self.schema_version,
                    supported: PROJECT_SCHEMA_VERSION,
                },
            );
        }
        let mut i: usize = 0;
        while i < self.operations.len()
            invariant
                self.schema_version <= PROJECT_SCHEMA_VERSION,
                i <= self.operations.len(),
                forall|j: int| 0 <= j < i ==> (#[trigger] self.operations[j]).valid(),
            decreases self.operations.len() - i,
        {
            if let Err(error) = self.operations[i].check() {
                assert(!self@.operations[i as int].valid());
                return Err(error);
            }
            i = i + 1;
        }
        Ok(())
    }

    /// The operation of a kind that counts, or the one without effect.
    pub fn operation(&self, kind: Kind) -> (operation: Operation)
        ensures
            operation == self@.operation_of(kind),
            operation.kind() == kind,
    {
        proof {
            list::lemma_last_of(self@.operations, kind);
        }
        match list::find_last(&self.operations, kind) {
            Some(i) => self.operations[i],
            None => neutral_operation(kind),
        }
    }

    /// Sets an operation for good, with a command where something changed.
    pub fn commit_operation(&mut self, before: Operation, after: Operation) -> (result: Result<
        (),
        DocumentError,
    >)
        requires
            before.kind() == after.kind(),
            before.kind() != Kind::Rotate,
        ensures
            result == change_outcome(before, after),
            final(self)@ == if result is Ok {
                old(self)@.committed(before, after, notable(before, after))
            } else {
                old(self)@
            },
    {
        match (before, after) {
            (
                Operation::Straighten { degrees: a },
                Operation::Straighten { degrees: b },
            ) => self.commit_straighten(a, b),
            (Operation::Crop { rect: a }, Operation::Crop { rect: b }) => self.commit_crop(a, b),
            (
                Operation::Denoise { luma_denoise: a, color_denoise: c },
                Operation::Denoise { luma_denoise: b, color_denoise: d },
            ) => self.commit_denoise(a, c, b, d),
            (
                Operation::WhiteBalance { adjustment: a },
                Operation::WhiteBalance { adjustment: b },
            ) => self.commit_white_balance(a, b),
            (Operation::Exposure { ev: a }, Operation::Exposure { ev: b }) => self.commit_exposure(
                a,
                b,
            ),
            (
                Operation::Contrast { amount: a },
                Operation::Contrast { amount: b },
            ) => self.commit_contrast(a, b),
            (
                Operation::ShadowsHighlights { adjustment: a },
                Operation::ShadowsHighlights { adjustment: b },
            ) => self.commit_shadows_highlights(a, b),
            (
                Operation::ToneCurve { curve: a },
                Operation::ToneCurve { curve: b },
            ) => self.commit_tone_curve(a, b),
            (
                Operation::Saturation { amount: a },
                Operation::Saturation { amount: b },
            ) => self.commit_saturation(a, b),
            (
                Operation::Vignette { strength: a },
                Operation::Vignette { strength: b },
            ) => self.commit_vignette(a, b),
            (
                Operation::Sharpness { amount: a },
                Operation::Sharpness { amount: b },
            ) => self.commit_sharpness(a, b),
            (
                Operation::Frame { width_pct: a, color: c },
                Operation::Frame { width_pct: b, color: d },
            ) => self.commit_frame(a, c, b, d),
            _ => {
                assert(false);
                Ok(())
            },
        }
    }

    /// Sets an operation without a trace in the history.
    pub fn preview_operation(&mut self, operation: Operation) -> (result: Result<(), DocumentError>)
        ensures
            result == outcome(operation),
            final(self)@ == if operation.valid() {
                old(self)@.set(operation)
            } else {
                old(self)@
            },
    {
        if let Err(error) = operation.check() {
            return Err(error);
        }
        list::set(&mut self.operations, operation);
        Ok(())
    }

    /// Sets an operation for good.
    fn commit(
        &mut self,
        before: Operation,
        after: Operation,
        changed: bool,
        command: Command,
    ) -> (result: Result<(), DocumentError>)
        requires
            command@ == Step::single(before, after),
        ensures
            result == change_outcome(before, after),
            final(self)@ == if before.valid() && after.valid() {
                old(self)@.committed(before, after, changed)
            } else {
                old(self)@
            },
    {
        if let Err(error) = before.check() {
            return Err(error);
        }
        if let Err(error) = self.preview_operation(after) {
            return Err(error);
        }
        if changed {
            self.history.push(command);
        }
        Ok(())
    }

    #[must_use]
    pub fn exposure_ev(&self) -> (result: Scalar)
        ensures
            result == self@.exposure(),
    {
        match list::find_last(&self.operations, Kind::Exposure) {
            Some(i) => match self.operations[i] {
                Operation::Exposure { ev } => ev,
                _ => Scalar { bits: constants::ZERO },
            },
            None => Scalar { bits: constants::ZERO },
        }
    }

    #[must_use]
    pub fn contrast(&self) -> (result: Scalar)
        ensures
            result == self@.contrast_amount(),
    {
        match list::find_last(&self.operations, Kind::Contrast) {
            Some(i) => match self.operations[i] {
                Operation::Contrast { amount } => amount,
                _ => Scalar { bits: constants::ZERO },
            },
            None => Scalar { bits: constants::ZERO },
        }
    }

    #[must_use]
    pub fn shadows_highlights(&self) -> (result: ShadowsHighlights)
        ensures
            result == self@.shadow_and_highlight(),
    {
        match list::find_last(&self.operations, Kind::ShadowsHighlights) {
            Some(i) => match self.operations[i] {
                Operation::ShadowsHighlights { adjustment } => adjustment,
                _ => ShadowsHighlights::identity(),
            },
            None => ShadowsHighlights::identity(),
        }
    }

    #[must_use]
    pub fn white_balance(&self) -> (result: WhiteBalance)
        ensures
            result == self@.balance(),
    {
        match list::find_last(&self.operations, Kind::WhiteBalance) {
            Some(i) => match self.operations[i] {
                Operation::WhiteBalance { adjustment } => adjustment,
                _ => WhiteBalance::identity(),
            },
            None => WhiteBalance::identity(),
        }
    }

    #[must_use]
    pub fn rotation_quarter_turns(&self) -> (result: u8)
        ensures
            result == self@.turns(),
    {
        match list::find_last(&self.operations, Kind::Rotate) {
            Some(i) => match self.operations[i] {
                Operation::Rotate { quarter_turns } => quarter_turns,
                _ => 0,
            },
            None => 0,
        }
    }

    #[must_use]
    pub fn crop_rect(&self) -> (result: CropRect)
        ensures
            result == self@.crop(),
    {
        match list::find_last(&self.operations, Kind::Crop) {
            Some(i) => match self.operations[i] {
                Operation::Crop { rect } => rect,
                _ => CropRect::full(),
            },
            None => CropRect::full(),
        }
    }

    #[must_use]
    pub fn tone_curve(&self) -> (result: ToneCurve)
        ensures
            result == self@.curve(),
    {
        match list::find_last(&self.operations, Kind::ToneCurve) {
            Some(i) => match self.operations[i] {
                Operation::ToneCurve { curve } => curve,
                _ => ToneCurve::identity(),
            },
            None => ToneCurve::identity(),
        }
    }

    #[must_use]
    pub fn saturation(&self) -> (result: Scalar)
        ensures
            result == self@.saturation_amount(),
    {
        match list::find_last(&self.operations, Kind::Saturation) {
            Some(i) => match self.operations[i] {
                Operation::Saturation { amount } => amount,
                _ => Scalar { bits: constants::ZERO },
            },
            None => Scalar { bits: constants::ZERO },
        }
    }

    #[must_use]
    pub fn vignette(&self) -> (result: Scalar)
        ensures
            result == self@.vignette_strength(),
    {
        match list::find_last(&self.operations, Kind::Vignette) {
            Some(i) => match self.operations[i] {
                Operation::Vignette { strength } => strength,
                _ => Scalar { bits: constants::ZERO },
            },
            None => Scalar { bits: constants::ZERO },
        }
    }

    #[must_use]
    pub fn sharpness(&self) -> (result: Scalar)
        ensures
            result == self@.sharpness_amount(),
    {
        match list::find_last(&self.operations, Kind::Sharpness) {
            Some(i) => match self.operations[i] {
                Operation::Sharpness { amount } => amount,
                _ => Scalar { bits: constants::ZERO },
            },
            None => Scalar { bits: constants::ZERO },
        }
    }

    #[must_use]
    pub fn denoise(&self) -> (result: (Scalar, Scalar))
        ensures
            result == self@.denoise_amounts(),
    {
        match list::find_last(&self.operations, Kind::Denoise) {
            Some(i) => match self.operations[i] {
                Operation::Denoise { luma_denoise, color_denoise } => (luma_denoise, color_denoise),
                _ => (Scalar { bits: constants::ZERO }, Scalar { bits: constants::ZERO }),
            },
            None => (Scalar { bits: constants::ZERO }, Scalar { bits: constants::ZERO }),
        }
    }

    #[must_use]
    pub fn frame(&self) -> (result: (Scalar, FrameColor))
        ensures
            result == self@.border(),
    {
        match list::find_last(&self.operations, Kind::Frame) {
            Some(i) => match self.operations[i] {
                Operation::Frame { width_pct, color } => (width_pct, color),
                _ => (Scalar { bits: constants::ZERO }, FrameColor::white()),
            },
            None => (Scalar { bits: constants::ZERO }, FrameColor::white()),
        }
    }

    #[must_use]
    pub fn straighten_degrees(&self) -> (result: Scalar)
        ensures
            result == self@.degrees(),
    {
        match list::find_last(&self.operations, Kind::Straighten) {
            Some(i) => match self.operations[i] {
                Operation::Straighten { degrees } => degrees,
                _ => Scalar { bits: constants::ZERO },
            },
            None => Scalar { bits: constants::ZERO },
        }
    }

    /// Sets the visible state without a history entry, as during a continuous
    /// slider movement.
    pub fn preview_exposure(&mut self, ev: Scalar) -> (result: Result<(), DocumentError>)
        ensures
            result == outcome(Operation::Exposure { ev }),
            final(self)@ == if (Operation::Exposure { ev }).valid() {
                old(self)@.set(Operation::Exposure { ev })
            } else {
                old(self)@
            },
    {
        self.preview_operation(Operation::Exposure { ev })
    }

    pub fn commit_exposure(&mut self, before: Scalar, after: Scalar) -> (result: Result<(), DocumentError>)
        ensures
            result == change_outcome(Operation::Exposure { ev: before }, Operation::Exposure { ev: after }),
            final(self)@ == if result is Ok {
                old(self)@.committed(
                    Operation::Exposure { ev: before },
                    Operation::Exposure { ev: after },
                    values::distinct(before, after),
                )
            } else {
                old(self)@
            },
    {
        self.commit(
            Operation::Exposure { ev: before },
            Operation::Exposure { ev: after },
            is_distinct(before, after),
            Command::SetExposure { before, after },
        )
    }

    pub fn preview_contrast(&mut self, amount: Scalar) -> (result: Result<(), DocumentError>)
        ensures
            result == outcome(Operation::Contrast { amount }),
            final(self)@ == if (Operation::Contrast { amount }).valid() {
                old(self)@.set(Operation::Contrast { amount })
            } else {
                old(self)@
            },
    {
        self.preview_operation(Operation::Contrast { amount })
    }

    pub fn commit_contrast(&mut self, before: Scalar, after: Scalar) -> (result: Result<(), DocumentError>)
        ensures
            result == change_outcome(Operation::Contrast { amount: before }, Operation::Contrast { amount: after }),
            final(self)@ == if result is Ok {
                old(self)@.committed(
                    Operation::Contrast { amount: before },
                    Operation::Contrast { amount: after },
                    values::distinct(before, after),
                )
            } else {
                old(self)@
            },
    {
        self.commit(
            Operation::Contrast { amount: before },
            Operation::Contrast { amount: after },
            is_distinct(before, after),
            Command::SetContrast { before, after },
        )
    }

    pub fn preview_saturation(&mut self, amount: Scalar) -> (result: Result<(), DocumentError>)
        ensures
            result == outcome(Operation::Saturation { amount }),
            final(self)@ == if (Operation::Saturation { amount }).valid() {
                old(self)@.set(Operation::Saturation { amount })
            } else {
                old(self)@
            },
    {
        self.preview_operation(Operation::Saturation { amount })
    }

    pub fn commit_saturation(&mut self, before: Scalar, after: Scalar) -> (result: Result<(), DocumentError>)
        ensures
            result == change_outcome(Operation::Saturation { amount: before }, Operation::Saturation { amount: after }),
            final(self)@ == if result is Ok {
                old(self)@.committed(
                    Operation::Saturation { amount: before },
                    Operation::Saturation { amount: after },
                    values::distinct(before, after),
                )
            } else {
                old(self)@
            },
    {
        self.commit(
            Operation::Saturation { amount: before },
            Operation::Saturation { amount: after },
            is_distinct(before, after),
            Command::SetSaturation { before, after },
        )
    }

    pub fn preview_vignette(&mut self, strength: Scalar) -> (result: Result<(), DocumentError>)
        ensures
            result == outcome(Operation::Vignette { strength }),
            final(self)@ == if (Operation::Vignette { strength }).valid() {
                old(self)@.set(Operation::Vignette { strength })
            } else {
                old(self)@
            },
    {
        self.preview_operation(Operation::Vignette { strength })
    }

    pub fn commit_vignette(&mut self, before: Scalar, after: Scalar) -> (result: Result<(), DocumentError>)
        ensures
            result == change_outcome(Operation::Vignette { strength: before }, Operation::Vignette { strength: after }),
            final(self)@ == if result is Ok {
                old(self)@.committed(
                    Operation::Vignette { strength: before },
                    Operation::Vignette { strength: after },
                    values::distinct(before, after),
                )
            } else {
                old(self)@
            },
    {
        self.commit(
            Operation::Vignette { strength: before },
            Operation::Vignette { strength: after },
            is_distinct(before, after),
            Command::SetVignette { before, after },
        )
    }

    pub fn preview_sharpness(&mut self, amount: Scalar) -> (result: Result<(), DocumentError>)
        ensures
            result == outcome(Operation::Sharpness { amount }),
            final(self)@ == if (Operation::Sharpness { amount }).valid() {
                old(self)@.set(Operation::Sharpness { amount })
            } else {
                old(self)@
            },
    {
        self.preview_operation(Operation::Sharpness { amount })
    }

    pub fn commit_sharpness(&mut self, before: Scalar, after: Scalar) -> (result: Result<(), DocumentError>)
        ensures
            result == change_outcome(Operation::Sharpness { amount: before }, Operation::Sharpness { amount: after }),
            final(self)@ == if result is Ok {
                old(self)@.committed(
                    Operation::Sharpness { amount: before },
                    Operation::Sharpness { amount: after },
                    values::distinct(before, after),
                )
            } else {
                old(self)@
            },
    {
        self.commit(
            Operation::Sharpness { amount: before },
            Operation::Sharpness { amount: after },
            is_distinct(before, after),
            Command::SetSharpness { before, after },
        )
    }

    pub fn preview_straighten(&mut self, degrees: Scalar) -> (result: Result<(), DocumentError>)
        ensures
            result == outcome(Operation::Straighten { degrees }),
            final(self)@ == if (Operation::Straighten { degrees }).valid() {
                old(self)@.set(Operation::Straighten { degrees })
            } else {
                old(self)@
            },
    {
        self.preview_operation(Operation::Straighten { degrees })
    }

    pub fn commit_straighten(&mut self, before: Scalar, after: Scalar) -> (result: Result<(), DocumentError>)
        ensures
            result == change_outcome(Operation::Straighten { degrees: before }, Operation::Straighten { degrees: after }),
            final(self)@ == if result is Ok {
                old(self)@.committed(
                    Operation::Straighten { degrees: before },
                    Operation::Straighten { degrees: after },
                    values::distinct(before, after),
                )
            } else {
                old(self)@
            },
    {
        self.commit(
            Operation::Straighten { degrees: before },
            Operation::Straighten { degrees: after },
            is_distinct(before, after),
            Command::SetStraighten { before, after },
        )
    }

    pub fn preview_shadows_highlights(&mut self, adjustment: ShadowsHighlights) -> (result: Result<(), DocumentError>)
        ensures
            result == outcome(Operation::ShadowsHighlights { adjustment }),
            final(self)@ == if (Operation::ShadowsHighlights { adjustment }).valid() {
                old(self)@.set(Operation::ShadowsHighlights { adjustment })
            } else {
                old(self)@
            },
    {
        self.preview_operation(Operation::ShadowsHighlights { adjustment })
    }

    pub fn commit_shadows_highlights(&mut self, before: ShadowsHighlights, after: ShadowsHighlights) -> (result: Result<(), DocumentError>)
        ensures
            result == change_outcome(Operation::ShadowsHighlights { adjustment: before }, Operation::ShadowsHighlights { adjustment: after }),
            final(self)@ == if result is Ok {
                old(self)@.committed(
                    Operation::ShadowsHighlights { adjustment: before },
                    Operation::ShadowsHighlights { adjustment: after },
                    !before.same(after),
                )
            } else {
                old(self)@
            },
    {
        self.commit(
            Operation::ShadowsHighlights { adjustment: before },
            Operation::ShadowsHighlights { adjustment: after },
            !before.equals(after),
            Command::SetShadowsHighlights { before, after },
        )
    }

    pub fn preview_white_balance(&mut self, adjustment: WhiteBalance) -> (result: Result<(), DocumentError>)
        ensures
            result == outcome(Operation::WhiteBalance { adjustment }),
            final(self)@ == if (Operation::WhiteBalance { adjustment }).valid() {
                old(self)@.set(Operation::WhiteBalance { adjustment })
            } else {
                old(self)@
            },
    {
        self.preview_operation(Operation::WhiteBalance { adjustment })
    }

    pub fn commit_white_balance(&mut self, before: WhiteBalance, after: WhiteBalance) -> (result: Result<(), DocumentError>)
        ensures
            result == change_outcome(Operation::WhiteBalance { adjustment: before }, Operation::WhiteBalance { adjustment: after }),
            final(self)@ == if result is Ok {
                old(self)@.committed(
                    Operation::WhiteBalance { adjustment: before },
                    Operation::WhiteBalance { adjustment: after },
                    !before.same(after),
                )
            } else {
                old(self)@
            },
    {
        self.commit(
            Operation::WhiteBalance { adjustment: before },
            Operation::WhiteBalance { adjustment: after },
            !before.equals(after),
            Command::SetWhiteBalance { before, after },
        )
    }

    pub fn preview_crop(&mut self, rect: CropRect) -> (result: Result<(), DocumentError>)
        ensures
            result == outcome(Operation::Crop { rect }),
            final(self)@ == if (Operation::Crop { rect }).valid() {
                old(self)@.set(Operation::Crop { rect })
            } else {
                old(self)@
            },
    {
        self.preview_operation(Operation::Crop { rect })
    }

    pub fn commit_crop(&mut self, before: CropRect, after: CropRect) -> (result: Result<(), DocumentError>)
        ensures
            result == change_outcome(Operation::Crop { rect: before }, Operation::Crop { rect: after }),
            final(self)@ == if result is Ok {
                old(self)@.committed(
                    Operation::Crop { rect: before },
                    Operation::Crop { rect: after },
                    !before.same(after),
                )
            } else {
                old(self)@
            },
    {
        self.commit(
            Operation::Crop { rect: before },
            Operation::Crop { rect: after },
            !before.equals(after),
            Command::SetCrop { before, after },
        )
    }

    pub fn preview_tone_curve(&mut self, curve: ToneCurve) -> (result: Result<(), DocumentError>)
        ensures
            result == outcome(Operation::ToneCurve { curve }),
            final(self)@ == if (Operation::ToneCurve { curve }).valid() {
                old(self)@.set(Operation::ToneCurve { curve })
            } else {
                old(self)@
            },
    {
        self.preview_operation(Operation::ToneCurve { curve })
    }

    pub fn commit_tone_curve(&mut self, before: ToneCurve, after: ToneCurve) -> (result: Result<(), DocumentError>)
        ensures
            result == change_outcome(Operation::ToneCurve { curve: before }, Operation::ToneCurve { curve: after }),
            final(self)@ == if result is Ok {
                old(self)@.committed(
                    Operation::ToneCurve { curve: before },
                    Operation::ToneCurve { curve: after },
                    !before.same(after),
                )
            } else {
                old(self)@
            },
    {
        self.commit(
            Operation::ToneCurve { curve: before },
            Operation::ToneCurve { curve: after },
            !before.equals(after),
            Command::SetToneCurve { before, after },
        )
    }

    pub fn preview_frame(&mut self, width_pct: Scalar, color: FrameColor) -> (result: Result<
        (),
        DocumentError,
    >)
        ensures
            result == outcome(Operation::Frame { width_pct, color }),
            final(self)@ == if (Operation::Frame { width_pct, color }).valid() {
                old(self)@.set(Operation::Frame { width_pct, color })
            } else {
                old(self)@
            },
    {
        self.preview_operation(Operation::Frame { width_pct, color })
    }

    pub fn commit_frame(
        &mut self,
        before_width_pct: Scalar,
        before_color: FrameColor,
        after_width_pct: Scalar,
        after_color: FrameColor,
    ) -> (result: Result<(), DocumentError>)
        ensures
            result == change_outcome(
                Operation::Frame { width_pct: before_width_pct, color: before_color },
                Operation::Frame { width_pct: after_width_pct, color: after_color },
            ),
            final(self)@ == if result is Ok {
                old(self)@.committed(
                    Operation::Frame { width_pct: before_width_pct, color: before_color },
                    Operation::Frame { width_pct: after_width_pct, color: after_color },
                    values::distinct(before_width_pct, after_width_pct) || before_color != after_color,
                )
            } else {
                old(self)@
            },
    {
        self.commit(
            Operation::Frame { width_pct: before_width_pct, color: before_color },
            Operation::Frame { width_pct: after_width_pct, color: after_color },
            is_distinct(before_width_pct, after_width_pct) || before_color != after_color,
            Command::SetFrame { before_width_pct, before_color, after_width_pct, after_color },
        )
    }

    pub fn preview_denoise(&mut self, luma: Scalar, color: Scalar) -> (result: Result<
        (),
        DocumentError,
    >)
        ensures
            result == outcome(Operation::Denoise { luma_denoise: luma, color_denoise: color }),
            final(self)@ == if (Operation::Denoise {
                luma_denoise: luma,
                color_denoise: color,
            }).valid() {
                old(self)@.set(Operation::Denoise { luma_denoise: luma, color_denoise: color })
            } else {
                old(self)@
            },
    {
        self.preview_operation(Operation::Denoise { luma_denoise: luma, color_denoise: color })
    }

    pub fn commit_denoise(
        &mut self,
        before_luma: Scalar,
        before_color: Scalar,
        after_luma: Scalar,
        after_color: Scalar,
    ) -> (result: Result<(), DocumentError>)
        ensures
            result == change_outcome(
                Operation::Denoise { luma_denoise: before_luma, color_denoise: before_color },
                Operation::Denoise { luma_denoise: after_luma, color_denoise: after_color },
            ),
            final(self)@ == if result is Ok {
                old(self)@.committed(
                    Operation::Denoise { luma_denoise: before_luma, color_denoise: before_color },
                    Operation::Denoise { luma_denoise: after_luma, color_denoise: after_color },
                    values::distinct(before_luma, after_luma) || values::distinct(before_color, after_color),
                )
            } else {
                old(self)@
            },
    {
        self.commit(
            Operation::Denoise { luma_denoise: before_luma, color_denoise: before_color },
            Operation::Denoise { luma_denoise: after_luma, color_denoise: after_color },
            is_distinct(before_luma, after_luma) || is_distinct(before_color, after_color),
            Command::SetDenoise { before_luma, before_color, after_luma, after_color },
        )
    }

    pub fn preview_rotation(&mut self, quarter_turns: u8) -> (result: Result<(), DocumentError>)
        ensures
            result == outcome(Operation::Rotate { quarter_turns }),
            final(self)@ == if quarter_turns <= 3 {
                old(self)@.set(Operation::Rotate { quarter_turns })
            } else {
                old(self)@
            },
    {
        self.preview_operation(Operation::Rotate { quarter_turns })
    }

    /// Turns the photo, and the crop with it.
    pub fn rotate_by(&mut self, quarter_turn_delta: i8) -> (result: Result<(), DocumentError>)
        requires
            old(self)@.turns() + quarter_turn_delta as int % 4 <= u8::MAX,
            quarter_turn_delta as int % 4 != 0 ==> old(self)@.crop().measurable(),
        ensures
            result == outcome(
                Operation::Crop {
                    rect: turned(old(self)@.crop(), quarter_turn_delta as int % 4),
                },
            ),
            final(self)@ == if result is Ok {
                old(self)@.rotated(quarter_turn_delta as int % 4)
            } else {
                old(self)@.set(
                    Operation::Rotate {
                        quarter_turns: old(self)@.turns_after(quarter_turn_delta as int % 4),
                    },
                )
            },
            laws::sound(old(self)@) && quarter_turn_delta as int % 4 == 1 ==> {
                &&& result is Ok
                &&& final(self)@.turns() == (old(self)@.turns() + 1) % 4
                &&& turn_laws::is_turned_right(
                    old(self)@.crop(),
                    final(self)@.crop(),
                    turn_laws::turning_slack(old(self)@.crop()),
                )
            },
            laws::sound(old(self)@) && quarter_turn_delta as int % 4 == 3 ==> {
                &&& result is Ok
                &&& final(self)@.turns() == (old(self)@.turns() + 3) % 4
                &&& turn_laws::is_turned_right(
                    final(self)@.crop(),
                    old(self)@.crop(),
                    8 * turn_laws::turning_slack(old(self)@.crop()),
                )
            },
    {
        proof {
            let delta = quarter_turn_delta as int % 4;
            if laws::sound(self@) && (delta == 1 || delta == 3) {
                turn_laws::turning_a_photo_takes_its_crop_along(self@);
                turn_laws::turning_round_gives_a_document_back(self@, delta);
            }
        }
        let before: u8 = self.rotation_quarter_turns();
        let crop_before: CropRect = self.crop_rect();
        let wide: i16 = quarter_turn_delta as i16 + 128;
        let delta: u8 = (wide % 4) as u8;
        assert(delta == quarter_turn_delta as int % 4);
        let after: u8 = (before + delta) % 4;
        let mut crop_after: CropRect = crop_before;
        let mut turn: u8 = 0;
        while turn < delta
            invariant
                turn <= delta,
                delta > 0 ==> crop_after.measurable(),
                crop_after == turned(crop_before, turn as int),
            decreases delta - turn,
        {
            crop_after = crop_after.rotated_right();
            turn = turn + 1;
        }
        if let Err(error) = self.preview_rotation(after) {
            return Err(error);
        }
        if let Err(error) = self.preview_crop(crop_after) {
            return Err(error);
        }
        if before != after {
            self.history.push(Command::Rotate { before, after, crop_before, crop_after });
        }
        Ok(())
    }

    /// Takes every adjustment back. Says whether there was any.
    pub fn restore_original(&mut self) -> (changed: bool)
        ensures
            changed == old(self)@.is_touched(),
            final(self)@ == if changed {
                old(self)@.restored()
            } else {
                old(self)@
            },
    {
        let after: Vec<Operation> = list::default_operations();
        if list::equal_operations(&self.operations, &after) {
            return false;
        }
        let before: Vec<Operation> = list::copied(&self.operations);
        self.operations = list::copied(&after);
        self.history.push(Command::RestoreOriginal { before, after });
        true
    }

    /// Undoes the newest command. Says whether there was one.
    pub fn undo(&mut self) -> (undone: bool)
        ensures
            undone == (old(self)@.history.undo.len() > 0),
            final(self)@ == if undone {
                old(self)@.undone()
            } else {
                old(self)@
            },
    {
        match self.history.undo.pop_back() {
            None => {
                assert(self@.history.undo =~= old(self)@.history.undo);
                false
            },
            Some(command) => {
                command.take_back(&mut self.operations);
                self.history.redo.push_back(command);
                assert(self@.history.undo =~= old(self)@.undone().history.undo);
                assert(self@.history.redo =~= old(self)@.undone().history.redo);
                true
            },
        }
    }

    /// Makes the newest undone command again. Says whether there was one.
    pub fn redo(&mut self) -> (redone: bool)
        ensures
            redone == (old(self)@.history.redo.len() > 0),
            final(self)@ == if redone {
                old(self)@.redone()
            } else {
                old(self)@
            },
    {
        match self.history.redo.pop_back() {
            None => {
                assert(self@.history.redo =~= old(self)@.history.redo);
                false
            },
            Some(command) => {
                command.make_again(&mut self.operations);
                self.history.undo.push_back(command);
                assert(self@.history.undo =~= old(self)@.redone().history.undo);
                assert(self@.history.redo =~= old(self)@.redone().history.redo);
                true
            },
        }
    }
}

} // verus!
