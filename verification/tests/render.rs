use focusless::document::curve::ToneCurve;
use focusless::document::operation::Operation;
use focusless::document::values::{CropRect, FrameColor, ShadowsHighlights, WhiteBalance};
use focusless::number::scalar::Scalar;
use focusless::number::wide::Wide;
use focusless::render::bands::{ensure_rgba8, flatten_for_jpeg, split_color_and_alpha};
use focusless::render::cache::PreviewCaches;
use focusless::render::contracts::{
    dimensions, finish_preview, validate_viewport, ExportFormat, ImageInfo, PreviewRequest,
    RenderError, Viewport,
};
use focusless::render::export::{export_target, export_temporary_path, srgb_profile_candidates};
use focusless::render::geometry::{
    crop_area, crop_begins_inside, fit_to_canvas, frame_layout, largest_rotated_rect,
    straighten_area, straightened_dimensions, Angle, Area, FrameLayout,
};
use focusless::render::plan::{
    apply_operations, find_cut, pick_operations_before, plan_before, plan_behind, plan_frame,
    remove_frame, Cut, Stage,
};
use focusless::render::tones::{
    alpha_to_unit, chroma_scale, contrast_gamma, light_shift, neighbourhood_radius,
    sharpness_gain, sharpness_radius, tone_curve_lut, vignette_places, vignette_ramp,
    SampleFormat,
};
use focusless::render::view::{plan_viewport, proxy_scale, proxy_viewport};
use focusless::render::white_balance::{tint_tangent, white_balance_rgb_matrix, NarrowTriple};

fn f(value: f32) -> Scalar {
    Scalar::from_bits(value.to_bits())
}

fn plain(value: Scalar) -> f32 {
    f32::from_bits(value.to_bits())
}

fn w(value: f64) -> Wide {
    Wide::from_bits(value.to_bits())
}

fn plain_wide(value: Wide) -> f64 {
    f64::from_bits(value.to_bits())
}

fn angle(degrees: f64) -> Angle {
    let radians = degrees.abs().to_radians();
    Angle { sine: w(radians.sin().abs()), cosine: w(radians.cos().abs()) }
}

fn request(operations: Vec<Operation>, viewport: Viewport) -> PreviewRequest {
    PreviewRequest { generation: 1, source_path: "/photos/a.png".into(), operations, viewport }
}

fn plain_row(row: NarrowTriple) -> [f32; 3] {
    [plain(row.a), plain(row.b), plain(row.c)]
}

fn matrix(temperature: f32, tint: f32) -> [[f32; 3]; 3] {
    let adjustment = WhiteBalance { temperature: f(temperature), tint: f(tint) };
    let tangent = tint_tangent(adjustment);
    let length = plain_wide(tangent.x).hypot(plain_wide(tangent.y));
    let matrix = white_balance_rgb_matrix(adjustment, w(length)).unwrap();
    [plain_row(matrix.first), plain_row(matrix.second), plain_row(matrix.third)]
}

fn apply_test_matrix(matrix: [[f32; 3]; 3], value: [f32; 3]) -> [f32; 3] {
    matrix.map(|row| row[0] * value[0] + row[1] * value[1] + row[2] * value[2])
}

#[test]
fn cat16_white_balance_has_expected_neutral_axis_behavior() {
    let identity = matrix(0.0, 0.0);
    for (row, values) in identity.iter().enumerate() {
        for (column, value) in values.iter().enumerate() {
            let expected = if row == column { 1.0 } else { 0.0 };
            assert!(
                (*value - expected).abs() < 2.0e-6,
                "identity coefficient ({row}, {column}) was {value}"
            );
        }
    }

    let neutral = [0.18_f32; 3];
    let warm = apply_test_matrix(matrix(100.0, 0.0), neutral);
    let cool = apply_test_matrix(matrix(-100.0, 0.0), neutral);
    assert!(warm[0] > warm[1] && warm[1] > warm[2], "{warm:?}");
    assert!(cool[2] > cool[1] && cool[1] > cool[0], "{cool:?}");

    let magenta = apply_test_matrix(matrix(0.0, 100.0), neutral);
    assert!(magenta[1] < (magenta[0] + magenta[2]) * 0.5, "{magenta:?}");

    for adjusted in [warm, cool, magenta] {
        let luminance =
            0.212_672_9 * adjusted[0] + 0.715_152_2 * adjusted[1] + 0.072_175 * adjusted[2];
        assert!(
            (luminance - 0.18).abs() < 2.0e-5,
            "CAT16 must preserve the reference-white luminance, got {luminance}"
        );
    }
}

/// Renders previews as far as what is kept decides, and counts what is made.
struct Counter {
    caches: PreviewCaches,
    fit_source_builds: u32,
    fit_adjustment_builds: u32,
    pipeline_builds: u32,
}

impl Counter {
    fn new() -> Counter {
        Counter {
            caches: PreviewCaches::new(),
            fit_source_builds: 0,
            fit_adjustment_builds: 0,
            pipeline_builds: 0,
        }
    }

    /// The stages that are rendered for a preview, the kept ones first.
    fn render(&mut self, request: &PreviewRequest, info: ImageInfo) -> Vec<Stage> {
        if self.caches.wants_fit_source(request) {
            self.caches.begin_fit_source();
            self.fit_source_builds += 1;
            let scale = proxy_scale(info, request.viewport);
            self.caches.fit_source_made(request, scale.source_scale);
        }
        if self.caches.uses_proxy(request) {
            let plan = self.caches.plan_fit(request);
            if plan.rebuild.is_some() {
                self.fit_adjustment_builds += 1;
            }
            self.caches.fit_rendered(request);
            let mut stages = if plan.from_kept {
                let kept = self.caches.adjustments.as_ref().unwrap();
                apply_operations(&kept.operations)
            } else {
                Vec::new()
            };
            stages.extend(plan.rest);
            stages
        } else {
            self.pipeline_builds += 1;
            self.caches.pipeline_rendered(request);
            apply_operations(&request.operations)
        }
    }
}

#[test]
fn restored_fit_zoom_uses_the_source_proxy_on_the_first_preview() {
    let mut engine = Counter::new();
    engine.render(
        &request(
            vec![Operation::Exposure { ev: f(0.5) }],
            Viewport {
                output_width: 70,
                output_height: 50,
                zoom: f(0.58),
                center_x: f(0.5),
                center_y: f(0.5),
            },
        ),
        ImageInfo { width: 120, height: 80 },
    );
    assert_eq!(engine.fit_source_builds, 1);
    assert_eq!(engine.pipeline_builds, 0);
    assert!(
        engine.caches.pipeline.is_none(),
        "a restored fit zoom must not build the full-resolution preview pipeline"
    );
}

#[test]
fn downstream_edits_reuse_the_shadows_highlights_fit_stage() {
    let info = ImageInfo { width: 240, height: 160 };
    let shadows_highlights = Operation::ShadowsHighlights {
        adjustment: ShadowsHighlights { shadows: f(45.0), highlights: f(-35.0) },
    };
    let mut engine = Counter::new();
    engine.render(
        &request(
            vec![shadows_highlights, Operation::Saturation { amount: f(20.0) }],
            Viewport::fit(120, 80),
        ),
        info,
    );
    let operations = vec![shadows_highlights, Operation::Saturation { amount: f(60.0) }];
    let cached = engine.render(&request(operations.clone(), Viewport::fit(120, 80)), info);
    assert_eq!(
        engine.fit_adjustment_builds, 1,
        "a downstream edit must reuse the materialized shadows/highlights stage"
    );
    assert_eq!(
        cached,
        apply_operations(&operations),
        "the materialized stage must not change what is rendered"
    );

    engine.render(
        &request(
            vec![
                Operation::Exposure { ev: f(0.5) },
                shadows_highlights,
                Operation::Saturation { amount: f(60.0) },
            ],
            Viewport::fit(120, 80),
        ),
        info,
    );
    assert_eq!(
        engine.fit_adjustment_builds, 2,
        "an upstream edit must rebuild the shadows/highlights stage"
    );

    let plain_request = request(vec![Operation::Exposure { ev: f(0.5) }], Viewport::fit(120, 80));
    engine.render(&plain_request, info);
    assert_eq!(engine.fit_adjustment_builds, 2);
    assert!(engine.caches.adjustments.is_none());
    assert_eq!(engine.fit_source_builds, 1);
}

#[test]
fn another_canvas_or_photo_needs_another_proxy() {
    let mut caches = PreviewCaches::new();
    let first = request(Vec::new(), Viewport::fit(120, 80));
    caches.fit_source_made(&first, f(0.5));
    assert!(!caches.wants_fit_source(&first));
    assert!(caches.wants_fit_source(&request(Vec::new(), Viewport::fit(121, 80))));
    let mut other = request(Vec::new(), Viewport::fit(120, 80));
    other.source_path = "/photos/b.png".into();
    assert!(caches.wants_fit_source(&other));
    other.source_path = "/photos//a.png".into();
    assert!(!caches.wants_fit_source(&other));
    let mut close = request(Vec::new(), Viewport::fit(120, 80));
    close.viewport.zoom = f(2.0);
    assert!(!caches.uses_proxy(&close));
    close.viewport.zoom = f(0.4);
    assert!(caches.uses_proxy(&close));
    caches.clear();
    assert!(caches.wants_fit_source(&first));
}

#[test]
fn the_full_size_pipeline_is_kept_whatever_the_frame() {
    let mut caches = PreviewCaches::new();
    let exposure = Operation::Exposure { ev: f(1.0) };
    let first = request(vec![exposure], Viewport::fit(120, 80));
    assert_eq!(
        caches.plan_pipeline(&first),
        Some(vec![Stage::Exposure { ev: f(1.0) }])
    );
    caches.pipeline_rendered(&first);
    let framed = request(
        vec![exposure, Operation::Frame { width_pct: f(10.0), color: FrameColor::black() }],
        Viewport::fit(120, 80),
    );
    assert_eq!(caches.plan_pipeline(&framed), None);
    let brighter = request(vec![Operation::Exposure { ev: f(2.0) }], Viewport::fit(120, 80));
    assert!(caches.plan_pipeline(&brighter).is_some());
}

#[test]
fn stages_come_in_their_order_whatever_the_order_of_the_operations() {
    let rect = CropRect { x: f(0.1), y: f(0.1), width: f(0.5), height: f(0.5) };
    let curve = ToneCurve { shadows: f(0.1), ..ToneCurve::identity() };
    let operations = vec![
        Operation::Frame { width_pct: f(5.0), color: FrameColor::white() },
        Operation::Sharpness { amount: f(40.0) },
        Operation::Vignette { strength: f(0.5) },
        Operation::Saturation { amount: f(-10.0) },
        Operation::ToneCurve { curve },
        Operation::Contrast { amount: f(20.0) },
        Operation::ShadowsHighlights {
            adjustment: ShadowsHighlights { shadows: f(1.0), highlights: f(0.0) },
        },
        Operation::Exposure { ev: f(0.3) },
        Operation::WhiteBalance {
            adjustment: WhiteBalance { temperature: f(3.0), tint: f(0.0) },
        },
        Operation::Denoise { luma_denoise: f(10.0), color_denoise: f(0.0) },
        Operation::Crop { rect },
        Operation::Straighten { degrees: f(2.0) },
        Operation::Rotate { quarter_turns: 3 },
    ];
    let stages = apply_operations(&operations);
    assert_eq!(
        stages,
        vec![
            Stage::Rotate { quarter_turns: 3 },
            Stage::Straighten { degrees: f(2.0) },
            Stage::Crop { rect },
            Stage::Denoise { luma: f(10.0), color: f(0.0) },
            Stage::WhiteBalance {
                adjustment: WhiteBalance { temperature: f(3.0), tint: f(0.0) },
            },
            Stage::Exposure { ev: f(0.3) },
            Stage::ShadowsHighlights {
                adjustment: ShadowsHighlights { shadows: f(1.0), highlights: f(0.0) },
            },
            Stage::Contrast { amount: f(20.0) },
            Stage::ToneCurve { curve },
            Stage::Saturation { amount: f(-10.0) },
            Stage::Sharpness { amount: f(40.0) },
            Stage::Vignette { strength: f(0.5) },
            Stage::Frame { width_pct: f(5.0), color: FrameColor::white() },
        ]
    );
    let cut = find_cut(&operations);
    assert_eq!(cut, Cut::AfterShadowsHighlights);
    let before = plan_before(&operations, cut);
    let mut joined = before.clone();
    joined.extend(plan_behind(&operations, cut));
    assert_eq!(joined, stages);
    assert_eq!(pick_operations_before(&operations, cut).len(), 7);
    assert_eq!(plan_frame(&operations).len(), 1);
    assert_eq!(remove_frame(&operations).len(), 12);
}

#[test]
fn neutral_operations_have_no_stages_and_the_last_of_a_kind_counts() {
    let operations = vec![
        Operation::Rotate { quarter_turns: 0 },
        Operation::Straighten { degrees: f(0.0) },
        Operation::Crop { rect: CropRect::full() },
        Operation::Exposure { ev: f(2.0) },
        Operation::Exposure { ev: f(0.0) },
        Operation::Vignette { strength: f(0.0) },
        Operation::ToneCurve { curve: ToneCurve::identity() },
    ];
    assert!(apply_operations(&operations).is_empty());
    assert_eq!(find_cut(&operations), Cut::Nowhere);
    let noisy = vec![Operation::Denoise { luma_denoise: f(0.0), color_denoise: f(5.0) }];
    assert_eq!(find_cut(&noisy), Cut::AfterDenoise);
}

#[test]
fn viewports_without_an_extent_are_refused() {
    assert_eq!(validate_viewport(Viewport::fit(64, 64)), Ok(()));
    assert_eq!(
        validate_viewport(Viewport::fit(0, 64)),
        Err(RenderError::InvalidDimensions)
    );
    let mut viewport = Viewport::fit(64, 64);
    viewport.zoom = f(f32::NAN);
    assert_eq!(validate_viewport(viewport), Err(RenderError::InvalidDimensions));
    assert_eq!(dimensions(3, 4), Ok(ImageInfo { width: 3, height: 4 }));
    assert_eq!(dimensions(3, 0), Err(RenderError::InvalidDimensions));
}

#[test]
fn a_preview_with_bytes_missing_is_refused() {
    let info = ImageInfo { width: 2, height: 1 };
    let result = finish_preview(5, info, vec![1; 8], f(0.5)).unwrap();
    assert_eq!((result.generation, result.width, result.height), (5, 2, 1));
    let error = finish_preview(5, info, vec![1; 7], f(0.5)).unwrap_err();
    assert_eq!(
        error.message(),
        "image engine error: libvips returned 7 preview bytes; expected 8"
    );
}

#[test]
fn render_errors_have_words() {
    assert_eq!(RenderError::InvalidDimensions.message(), "image dimensions are invalid");
    assert_eq!(RenderError::UnsupportedFormat.message(), "unsupported output format");
    assert_eq!(RenderError::Cancelled.message(), "render was cancelled");
    assert_eq!(RenderError::Engine("x".into()).message(), "image engine error: x");
    assert_eq!(RenderError::Io("y".into()).message(), "I/O error: y");
}

#[test]
fn crops_are_rounded_outwards() {
    let info = ImageInfo { width: 100, height: 50 };
    let rect = CropRect { x: f(0.101), y: f(0.2), width: f(0.3), height: f(0.6) };
    assert!(crop_begins_inside(info, rect));
    assert_eq!(
        crop_area(info, rect),
        Area { left: 10, top: 10, width: 31, height: 30 }
    );
    let thin = CropRect { x: f(0.99), y: f(0.0), width: f(0.01), height: f(1.0) };
    assert_eq!(
        crop_area(info, thin),
        Area { left: 99, top: 0, width: 1, height: 50 }
    );
    let outside = CropRect { x: f(1.0), y: f(0.0), width: f(0.1), height: f(0.1) };
    assert!(!crop_begins_inside(info, outside));
}

#[test]
fn a_crop_at_the_far_corner_lies_inside_every_photo() {
    let rect = CropRect { x: f(0.99), y: f(0.990_01), width: f(0.01), height: f(0.01) };
    for (width, height) in [(1, 1), (2, 3), (99, 16_777_217), (2_147_483_647, 2_147_483_000)] {
        let info = ImageInfo { width, height };
        assert!(crop_begins_inside(info, rect));
        let area = crop_area(info, rect);
        assert!(area.left >= 0 && area.top >= 0 && area.width > 0 && area.height > 0);
        assert!(area.left as u32 + area.width as u32 <= width);
        assert!(area.top as u32 + area.height as u32 <= height);
    }
    let zero = CropRect { x: f(-0.0), y: f(0.0), width: f(1.0), height: f(0.5) };
    assert_eq!(
        crop_area(ImageInfo { width: 10, height: 10 }, zero),
        Area { left: 0, top: 0, width: 10, height: 5 }
    );
}

#[test]
fn a_straightened_photo_is_the_largest_inside() {
    let (width, height) = largest_rotated_rect(w(100.0), w(100.0), angle(45.0));
    assert!((plain_wide(width) - 70.710_678).abs() < 1e-4);
    assert!((plain_wide(height) - 70.710_678).abs() < 1e-4);
    assert_eq!(straightened_dimensions(100, 50, f(0.0), angle(0.0)), (100, 50));
    let (width, height) = straightened_dimensions(100, 50, f(12.5), angle(12.5));
    assert!(width < 100 && height < 50);
    let turned = ImageInfo { width: 110, height: 72 };
    let area = straighten_area(ImageInfo { width: 100, height: 50 }, turned, angle(12.5));
    assert!(area.left + area.width <= 110 && area.top + area.height <= 72);
    assert_eq!((area.left, area.top), ((110 - area.width) / 2, (72 - area.height) / 2));
}

#[test]
fn frames_are_a_share_of_the_shorter_side() {
    assert_eq!(
        frame_layout(200, 100, f(10.0)),
        Some(FrameLayout { border: 10, width: 220, height: 120 })
    );
    assert_eq!(
        frame_layout(20, 10, f(1.0)),
        Some(FrameLayout { border: 1, width: 22, height: 12 })
    );
    assert_eq!(frame_layout(i32::MAX, i32::MAX, f(50.0)), None);
}

#[test]
fn a_fitted_photo_is_never_enlarged() {
    let info = ImageInfo { width: 400, height: 200 };
    let plan = plan_viewport(info, Viewport::fit(100, 100));
    assert_eq!(plan.cut, None);
    assert_eq!(plan.effective_zoom, f(0.25));
    let plan = plan_viewport(info, Viewport::fit(4000, 4000));
    assert_eq!(plan.effective_zoom, f(1.0));
    assert_eq!(plan.resize, None);
}

#[test]
fn a_zoomed_photo_shows_the_part_round_its_centre() {
    let info = ImageInfo { width: 400, height: 200 };
    let viewport = Viewport {
        output_width: 100,
        output_height: 100,
        zoom: f(1.0),
        center_x: f(0.5),
        center_y: f(1.0),
    };
    let plan = plan_viewport(info, viewport);
    assert_eq!(plan.cut, Some(Area { left: 150, top: 100, width: 100, height: 100 }));
    assert_eq!(plan.resize, None);
    let far = Viewport { zoom: f(1000.0), ..viewport };
    assert_eq!(plan_viewport(info, far).effective_zoom, f(32.0));
}

#[test]
fn a_proxy_has_half_as_many_pixels_again_as_are_shown() {
    let info = ImageInfo { width: 1200, height: 800 };
    let scale = proxy_scale(info, Viewport::fit(120, 80));
    assert!((plain(scale.source_scale) - 0.15).abs() < 1e-6);
    let small = proxy_scale(ImageInfo { width: 100, height: 80 }, Viewport::fit(120, 80));
    assert_eq!(small.source_scale, f(1.0));
    assert_eq!(small.resize, None);
    let viewport = Viewport { zoom: f(0.3), ..Viewport::fit(120, 80) };
    assert_eq!(proxy_viewport(viewport, f(0.5)).zoom, f(0.3f32 / 0.5));
    assert_eq!(proxy_viewport(Viewport::fit(120, 80), f(0.5)).zoom, f(0.0));
}

#[test]
fn an_image_is_centred_on_its_canvas() {
    let placement =
        fit_to_canvas(ImageInfo { width: 50, height: 200 }, Viewport::fit(100, 100)).unwrap();
    assert_eq!(placement.cut, Some(Area { left: 0, top: 50, width: 50, height: 100 }));
    assert_eq!((placement.left, placement.top), (25, 0));
    assert_eq!((placement.width, placement.height), (100, 100));
    assert_eq!(
        fit_to_canvas(ImageInfo { width: 50, height: 50 }, Viewport::fit(u32::MAX, 100)),
        Err(RenderError::InvalidDimensions)
    );
}

#[test]
fn tones_follow_their_amounts() {
    assert_eq!(plain_wide(chroma_scale(f(-100.0))), 0.0);
    assert_eq!(plain_wide(chroma_scale(f(50.0))), 1.5);
    assert_eq!(plain_wide(contrast_gamma(f(25.0))), 1.25);
    assert_eq!(plain_wide(sharpness_gain(f(250.0))), 2.5);
    assert_eq!(plain_wide(sharpness_radius(f(0.5))), 0.5);
    assert_eq!(plain_wide(sharpness_radius(f(0.01))), 0.2);
    let shift = light_shift(ShadowsHighlights { shadows: f(50.0), highlights: f(-25.0) });
    assert_eq!(plain_wide(shift.shadows), -0.5);
    assert_eq!(plain_wide(shift.highlights), -0.25);
    assert_eq!(
        plain_wide(neighbourhood_radius(ImageInfo { width: 6000, height: 3000 })),
        10.0
    );
    assert_eq!(plain_wide(neighbourhood_radius(ImageInfo { width: 60, height: 30 })), 1.0);
}

#[test]
fn a_vignette_starts_further_in_the_stronger_it_is() {
    let ramp = vignette_ramp(f(1.0));
    let inner = 1.0 - 0.6 * 1.0f64;
    assert_eq!(plain_wide(ramp.scale), 1.0 / (1.4 - inner));
    assert_eq!(plain_wide(ramp.offset), -inner / (1.4 - inner));
    let places = vignette_places(4, 2);
    let expected: Vec<f32> = vec![-1.5, -0.5, 0.5, 1.5];
    assert_eq!(places.iter().map(|place| plain(*place)).collect::<Vec<f32>>(), expected);
}

#[test]
fn the_table_of_a_straight_curve_is_straight() {
    let table = tone_curve_lut(ToneCurve::identity());
    assert_eq!(table[0], f(0.0));
    assert_eq!(*table.last().unwrap(), f(1.0));
    for (index, value) in table.iter().enumerate() {
        let expected = index as f32 / (table.len() - 1) as f32;
        assert!((plain(*value) - expected).abs() < 1e-6);
    }
}

#[test]
fn alpha_is_brought_to_one() {
    assert_eq!(alpha_to_unit(SampleFormat::Uchar).map(plain_wide), Some(1.0 / 255.0));
    assert_eq!(alpha_to_unit(SampleFormat::Ushort).map(plain_wide), Some(1.0 / 65535.0));
    assert_eq!(alpha_to_unit(SampleFormat::Float).map(plain_wide), Some(1.0));
    assert_eq!(alpha_to_unit(SampleFormat::Other), None);
}

#[test]
fn exports_are_written_beside_their_destination() {
    assert_eq!(
        export_temporary_path("/photos/out.jpg"),
        "/photos/out.focusless-export.tmp.jpg"
    );
    assert_eq!(export_temporary_path("/photos/out"), "/photos/out.focusless-export.tmp");
    assert_eq!(
        export_temporary_path("/photos/.hidden"),
        "/photos/.hidden.focusless-export.tmp"
    );
    assert_eq!(
        export_temporary_path("/photos/a.b.png"),
        "/photos/a.b.focusless-export.tmp.png"
    );
    assert_eq!(
        export_temporary_path("/photos/12:30\\1.png"),
        "/photos/12:30\\1.focusless-export.tmp.png"
    );
    assert_eq!(
        export_target("/a.jpg", ExportFormat::Jpeg { quality: 92 }, "/p.icc"),
        "/a.jpg[Q=92,optimize-coding=true,interlace=true,keep=none,profile=/p.icc]"
    );
    assert_eq!(
        export_target("/a.jpg", ExportFormat::Jpeg { quality: 0 }, "/p.icc"),
        "/a.jpg[Q=1,optimize-coding=true,interlace=true,keep=none,profile=/p.icc]"
    );
    assert_eq!(
        export_target("/a.png", ExportFormat::Png, "/p.icc"),
        "/a.png[compression=6,keep=none,profile=/p.icc]"
    );
    assert_eq!(
        export_target("/a.webp", ExportFormat::WebP { quality: 200 }, "/p.icc"),
        "/a.webp[Q=100,keep=none,profile=/p.icc]"
    );
}

#[test]
fn profiles_are_looked_for_where_they_were_asked_for_first() {
    assert_eq!(
        srgb_profile_candidates(
            Some("/mine.icc".into()),
            Some("/program".into()),
            &vec!["/system.icc".into()],
        ),
        vec![
            "/mine.icc".to_string(),
            "/program/sRGB Color Space Profile.icm".to_string(),
            "/program/sRGB.icc".to_string(),
            "/system.icc".to_string(),
        ]
    );
}

#[test]
fn adjustments_work_on_three_colors() {
    assert_eq!(split_color_and_alpha(3, false, "contrast"), Ok(3));
    assert_eq!(split_color_and_alpha(4, true, "contrast"), Ok(3));
    assert_eq!(
        split_color_and_alpha(2, true, "white balance"),
        Err(RenderError::Engine(
            "white balance requires three color bands, got 1".to_string()
        ))
    );
    assert_eq!(ensure_rgba8(4), Ok(false));
    assert_eq!(ensure_rgba8(3), Ok(true));
    assert_eq!(
        ensure_rgba8(1),
        Err(RenderError::Engine(
            "expected an RGB or RGBA image after colour conversion, got 1 bands".to_string()
        ))
    );
    assert_eq!(flatten_for_jpeg(3, false), None);
    assert_eq!(flatten_for_jpeg(4, true), Some(3));
    assert_eq!(flatten_for_jpeg(1, true), Some(1));
}

#[test]
fn no_turned_rectangle_is_larger_than_the_straightened_photo() {
    for (width, height) in [(100.0, 100.0), (300.0, 200.0), (90.0, 1000.0), (4000.0, 1.0)] {
        for degrees in [0.5, 2.0, 11.25, 30.0, 44.999_996, 45.0] {
            let angle = angle(degrees);
            let (s, c) = (plain_wide(angle.sine), plain_wide(angle.cosine));
            assert!((s - c).abs() < f64::EPSILON || c - s >= 1.0 / 16_777_216.0);
            let (wide, high) = largest_rotated_rect(w(width), w(height), angle);
            let (wide, high) = (plain_wide(wide), plain_wide(high));
            let slack = 1.0 + 1.0 / 2_097_152.0;
            assert!(wide >= 0.0 && high >= 0.0);
            assert!(wide * c + high * s <= width * slack, "{width} {height} {degrees}");
            assert!(wide * s + high * c <= height * slack, "{width} {height} {degrees}");
            for step in 0..=1000 {
                let x = width * 1.5 * f64::from(step) / 1000.0;
                let y = ((width - x * c) / s).min((height - x * s) / c);
                if y >= 0.0 {
                    assert!(x * y <= wide * high * (1.0 + 1.0 / 524_288.0), "{degrees} {x} {y}");
                }
            }
        }
    }
}

#[test]
fn every_white_balance_keeps_the_luminance_of_grey() {
    for temperature in [-100.0f32, -40.0, -1.0, 0.0, 25.0, 60.0, 100.0] {
        for tint in [-100.0f32, -50.0, 0.0, 3.0, 100.0] {
            let tangent =
                tint_tangent(WhiteBalance { temperature: f(temperature), tint: f(tint) });
            let (x, y) = (plain_wide(tangent.x), plain_wide(tangent.y));
            let length = x.hypot(y);
            assert!(x.abs() <= length && y.abs() <= length && length > 1.0e-6 && length < 1.0);
            let [red, green, blue] = apply_test_matrix(matrix(temperature, tint), [1.0; 3]);
            let luminance = 0.212_672_9 * red + 0.715_152_2 * green + 0.072_175 * blue;
            assert!((luminance - 1.0).abs() < 1.0 / 9600.0, "{temperature} {tint} {luminance}");
        }
    }
}

#[test]
fn warm_whites_make_grey_red_and_cool_ones_blue() {
    for temperature in [0.125f32, 0.5, 1.0, 7.0, 20.0, 55.0, 80.0, 81.0, 82.5, 99.0, 100.0] {
        let [red, green, blue] = apply_test_matrix(matrix(temperature, 0.0), [0.18; 3]);
        assert!(red > green && green > blue, "{temperature} {red} {green} {blue}");
        let [red, green, blue] = apply_test_matrix(matrix(-temperature, 0.0), [0.18; 3]);
        assert!(blue > green && green > red, "{temperature} {red} {green} {blue}");
    }
    let [red, green, blue] = apply_test_matrix(matrix(50.0, -0.0), [0.18; 3]);
    assert!(red > green && green > blue);
}

#[test]
fn tints_take_green_from_grey_or_give_it() {
    for tint in [0.125f32, 1.0, 12.0, 50.0, 100.0] {
        for zero in [0.0f32, -0.0] {
            let tangent = tint_tangent(WhiteBalance { temperature: f(zero), tint: f(tint) });
            let (x, y) = (plain_wide(tangent.x), plain_wide(tangent.y));
            assert!(x > 0.0 && y > 0.0 && x.hypot(y) <= x + y);
            let [red, green, blue] = apply_test_matrix(matrix(zero, tint), [0.18; 3]);
            assert!(green < (red + blue) * 0.5, "{tint} {red} {green} {blue}");
            let [red, green, blue] = apply_test_matrix(matrix(zero, -tint), [0.18; 3]);
            assert!(green > (red + blue) * 0.5, "{tint} {red} {green} {blue}");
        }
    }
}
