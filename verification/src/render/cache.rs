//! What of earlier previews can be used again.

use vstd::prelude::*;

use crate::document::list;
use crate::document::operation::Operation;
use crate::number::constants;
use crate::number::scalar::Scalar;
use crate::render::contracts::PreviewRequest;
use crate::render::plan;
use crate::render::plan::{Cut, Stage};
use crate::storage::paths;

verus! {

/// The smaller source image that is at hand for fitted previews.
#[derive(Clone, Debug, PartialEq)]
pub struct FitSource {
    pub source_path: String,
    pub output_width: u32,
    pub output_height: u32,
    pub source_scale: Scalar,
}

/// The pixels before a cut that are at hand.
#[derive(Clone, Debug, PartialEq)]
pub struct FitAdjustments {
    pub source_path: String,
    pub output_width: u32,
    pub output_height: u32,
    pub operations: Vec<Operation>,
}

/// The full-size pixels that are at hand.
#[derive(Clone, Debug, PartialEq)]
pub struct PreviewPipeline {
    pub source_path: String,
    pub operations: Vec<Operation>,
}

/// What is at hand from earlier previews.
#[derive(Clone, Debug, PartialEq)]
pub struct PreviewCaches {
    pub fit_source: Option<FitSource>,
    pub adjustments: Option<FitAdjustments>,
    pub pipeline: Option<PreviewPipeline>,
}

impl FitSource {
    /// Whether the image was made for the source and the output of a request.
    pub open spec fn is_for(self, request: PreviewRequest) -> bool {
        &&& paths::same_path(self.source_path@, request.source_path@)
        &&& self.output_width == request.viewport.output_width
        &&& self.output_height == request.viewport.output_height
    }

    /// Whether the image has enough pixels for a request.
    pub open spec fn supports(self, request: PreviewRequest) -> bool {
        self.is_for(request) && request.viewport.zoom.at_most(self.source_scale)
    }

    fn made_for(&self, request: &PreviewRequest) -> (result: bool)
        ensures
            result == self.is_for(*request),
    {
        paths::is_same(self.source_path.as_str(), request.source_path.as_str()) && self.output_width
            == request.viewport.output_width && self.output_height
            == request.viewport.output_height
    }
}

impl FitAdjustments {
    /// Whether the pixels are those that a request needs before its cut.
    pub open spec fn is_for(self, request: PreviewRequest) -> bool {
        &&& paths::same_path(self.source_path@, request.source_path@)
        &&& self.output_width == request.viewport.output_width
        &&& self.output_height == request.viewport.output_height
        &&& list::same_operations(
            self.operations@,
            plan::operations_before(
                request.operations@,
                plan::cut_of(request.operations@),
            ),
        )
    }
}

impl FitAdjustments {
    /// Whether the pixels were rendered for a request.
    pub open spec fn is_made_from(self, request: PreviewRequest) -> bool {
        &&& self.source_path@ == request.source_path@
        &&& self.output_width == request.viewport.output_width
        &&& self.output_height == request.viewport.output_height
        &&& self.operations@ == plan::operations_before(
            request.operations@,
            plan::cut_of(request.operations@),
        )
    }
}

impl PreviewPipeline {
    /// Whether the pixels are those of a request, but for the frame.
    pub open spec fn is_for(self, request: PreviewRequest) -> bool {
        &&& paths::same_path(self.source_path@, request.source_path@)
        &&& list::same_operations(self.operations@, plan::without_frame(request.operations@))
    }
}

/// Valid operations are the same as themselves.
proof fn lemma_picked_are_same(operations: Seq<Operation>, cut: Cut)
    requires
        list::all_valid(operations),
    ensures
        list::same_operations(
            plan::operations_before(operations, cut),
            plan::operations_before(operations, cut),
        ),
    decreases operations.len(),
{
    if operations.len() > 0 {
        let shorter = operations.drop_last();
        assert(list::all_valid(shorter)) by {
            assert forall|i: int| 0 <= i < shorter.len() implies (#[trigger] shorter[i]).valid() by {
                assert(operations[i].valid());
            }
        }
        lemma_picked_are_same(shorter, cut);
        assert(operations[operations.len() - 1].valid());
        assert(operations.last().same(operations.last()));
    }
}

/// The pixels that were kept for a preview serve the next one as well, when
/// an operation has been set in between that takes effect behind them.
pub proof fn kept_pixels_serve_later_edits(
    caches: PreviewCaches,
    request: PreviewRequest,
    later: PreviewRequest,
    operation: Operation,
)
    requires
        caches.adjustments matches Some(kept) && kept.is_made_from(request),
        list::all_valid(request.operations@),
        later.source_path@ == request.source_path@,
        later.viewport.output_width == request.viewport.output_width,
        later.viewport.output_height == request.viewport.output_height,
        later.operations@ == list::with(request.operations@, operation),
        !plan::is_before(operation.kind(), plan::cut_of(request.operations@)),
        plan::cut_of(later.operations@) == plan::cut_of(request.operations@),
    ensures
        caches.has_adjustments(later),
{
    let cut = plan::cut_of(request.operations@);
    plan::later_edits_keep_the_picked_operations(request.operations@, operation, cut);
    lemma_picked_are_same(request.operations@, cut);
}

/// What a fitted preview is made of.
#[derive(Clone, Debug, PartialEq)]
pub struct FitPlan {
    /// The stages from the source image that are to be rendered and kept.
    /// There are none where kept pixels are used, and where nothing is kept.
    pub rebuild: Option<Vec<Stage>>,
    /// Whether the remaining stages start at the kept pixels.
    pub from_kept: bool,
    /// The remaining stages.
    pub rest: Vec<Stage>,
}

impl PreviewCaches {
    /// Nothing is at hand.
    pub fn new() -> (caches: PreviewCaches)
        ensures
            caches.fit_source is None,
            caches.adjustments is None,
            caches.pipeline is None,
    {
        PreviewCaches { fit_source: None, adjustments: None, pipeline: None }
    }

    /// Forgets everything, as when another image is opened.
    pub fn clear(&mut self)
        ensures
            final(self).fit_source is None,
            final(self).adjustments is None,
            final(self).pipeline is None,
    {
        self.fit_source = None;
        self.adjustments = None;
        self.pipeline = None;
    }

    /// Whether a smaller source image has to be made before a request: for a
    /// fitted preview where the one at hand was made for something else, and
    /// for any preview where there is none yet. A project that is opened again
    /// holds the zoom of its last fitted view.
    pub open spec fn needs_fit_source(self, request: PreviewRequest) -> bool {
        match self.fit_source {
            None => true,
            Some(source) => request.viewport.fits() && !source.is_for(request),
        }
    }

    pub fn wants_fit_source(&self, request: &PreviewRequest) -> (result: bool)
        ensures
            result == self.needs_fit_source(*request),
    {
        match &self.fit_source {
            None => true,
            Some(source) => {
                request.viewport.zoom.less_or_equal(Scalar { bits: constants::ZERO })
                    && !source.made_for(request)
            },
        }
    }

    /// Before a smaller source image is made, what was kept of the earlier one
    /// is dropped.
    pub fn begin_fit_source(&mut self)
        ensures
            final(self).adjustments is None,
            final(self).fit_source == old(self).fit_source,
            final(self).pipeline == old(self).pipeline,
    {
        self.adjustments = None;
    }

    /// Takes note of a smaller source image.
    pub fn fit_source_made(&mut self, request: &PreviewRequest, source_scale: Scalar)
        ensures
            final(self).fit_source matches Some(source) && source.is_for(*request)
                && source.source_path@ == request.source_path@ && source.source_scale
                == source_scale,
            final(self).adjustments == old(self).adjustments,
            final(self).pipeline == old(self).pipeline,
            !final(self).needs_fit_source(*request),
    {
        self.fit_source = Some(
            FitSource {
                source_path: request.source_path.clone(),
                output_width: request.viewport.output_width,
                output_height: request.viewport.output_height,
                source_scale,
            },
        );
    }

    /// Whether a request is rendered from the smaller source image.
    pub open spec fn renders_from_proxy(self, request: PreviewRequest) -> bool {
        request.viewport.fits() || match self.fit_source {
            Some(source) => source.supports(request),
            None => false,
        }
    }

    pub fn uses_proxy(&self, request: &PreviewRequest) -> (result: bool)
        ensures
            result == self.renders_from_proxy(*request),
    {
        if request.viewport.zoom.less_or_equal(Scalar { bits: constants::ZERO }) {
            return true;
        }
        match &self.fit_source {
            Some(source) => {
                source.made_for(request) && request.viewport.zoom.less_or_equal(
                    source.source_scale,
                )
            },
            None => false,
        }
    }

    /// Whether the pixels before the cut of a request are at hand.
    pub open spec fn has_adjustments(self, request: PreviewRequest) -> bool {
        match self.adjustments {
            Some(kept) => kept.is_for(request),
            None => false,
        }
    }

    fn adjustments_fit(&self, request: &PreviewRequest, cut: Cut) -> (result: bool)
        requires
            cut == plan::cut_of(request.operations@),
        ensures
            result == self.has_adjustments(*request),
    {
        match &self.adjustments {
            Some(kept) => {
                let wanted: Vec<Operation> = plan::pick_operations_before(&request.operations, cut);
                paths::is_same(kept.source_path.as_str(), request.source_path.as_str()) && kept.output_width
                    == request.viewport.output_width && kept.output_height
                    == request.viewport.output_height && list::equal_operations(
                    &kept.operations,
                    &wanted,
                )
            },
            None => false,
        }
    }

    /// Plans a preview from the smaller source image.
    pub fn plan_fit(&self, request: &PreviewRequest) -> (fit: FitPlan)
        ensures
            ({
                let operations = request.operations@;
                let cut = plan::cut_of(operations);
                let kept = cut != Cut::Nowhere && self.has_adjustments(*request);
                &&& fit.rest@ == plan::stages_behind(operations, cut)
                &&& fit.from_kept == (cut != Cut::Nowhere)
                &&& fit.rebuild is Some <==> cut != Cut::Nowhere && !kept
                &&& fit.rebuild matches Some(stages) ==> stages@ == plan::stages_before(
                    operations,
                    cut,
                )
            }),
    {
        let cut: Cut = plan::find_cut(&request.operations);
        let rest: Vec<Stage> = plan::plan_behind(&request.operations, cut);
        if let Cut::Nowhere = cut {
            return FitPlan { rebuild: None, from_kept: false, rest };
        }
        let rebuild: Option<Vec<Stage>> = if self.adjustments_fit(request, cut) {
            None
        } else {
            Some(plan::plan_before(&request.operations, cut))
        };
        FitPlan { rebuild, from_kept: true, rest }
    }

    /// Takes note of the pixels that are kept after a preview from the smaller
    /// source image has been planned and, where needed, the stages before its
    /// cut have been rendered.
    pub fn fit_rendered(&mut self, request: &PreviewRequest)
        ensures
            final(self).fit_source == old(self).fit_source,
            final(self).pipeline == old(self).pipeline,
            plan::cut_of(request.operations@) == Cut::Nowhere ==> final(self).adjustments is None,
            plan::cut_of(request.operations@) != Cut::Nowhere ==> if old(self).has_adjustments(
                *request,
            ) {
                final(self).adjustments == old(self).adjustments
            } else {
                final(self).adjustments matches Some(kept) && kept.is_made_from(*request)
            },
    {
        let cut: Cut = plan::find_cut(&request.operations);
        if let Cut::Nowhere = cut {
            self.adjustments = None;
            return;
        }
        if !self.adjustments_fit(request, cut) {
            self.adjustments = Some(
                FitAdjustments {
                    source_path: request.source_path.clone(),
                    output_width: request.viewport.output_width,
                    output_height: request.viewport.output_height,
                    operations: plan::pick_operations_before(&request.operations, cut),
                },
            );
        }
    }

    /// Whether the full-size pixels of a request are at hand.
    pub open spec fn has_pipeline(self, request: PreviewRequest) -> bool {
        match self.pipeline {
            Some(kept) => kept.is_for(request),
            None => false,
        }
    }

    /// Plans the full-size pixels of a request, where they are not at hand.
    pub fn plan_pipeline(&self, request: &PreviewRequest) -> (stages: Option<Vec<Stage>>)
        ensures
            stages is None <==> self.has_pipeline(*request),
            stages matches Some(stages) ==> stages@ == plan::all_stages(
                plan::without_frame(request.operations@),
            ),
    {
        let base: Vec<Operation> = plan::remove_frame(&request.operations);
        if let Some(kept) = &self.pipeline {
            if paths::is_same(kept.source_path.as_str(), request.source_path.as_str()) && list::equal_operations(
                &kept.operations,
                &base,
            ) {
                return None;
            }
        }
        Some(plan::apply_operations(&base))
    }

    /// Takes note of the full-size pixels of a request.
    pub fn pipeline_rendered(&mut self, request: &PreviewRequest)
        ensures
            final(self).fit_source == old(self).fit_source,
            final(self).adjustments == old(self).adjustments,
            final(self).pipeline matches Some(kept) && kept.source_path@ == request.source_path@
                && kept.operations@ == plan::without_frame(request.operations@),
    {
        self.pipeline = Some(
            PreviewPipeline {
                source_path: request.source_path.clone(),
                operations: plan::remove_frame(&request.operations),
            },
        );
    }
}

} // verus!
