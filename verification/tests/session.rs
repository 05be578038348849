use focusless::document::curve::ToneCurve;
use focusless::document::operation::{DocumentError, Kind, Operation};
use focusless::document::project::ProjectDocument;
use focusless::document::values::{
    CropRect, FrameColor, ShadowsHighlights, SourceFingerprint, SourceReference, ViewState,
};
use focusless::number::scalar::Scalar;
use focusless::number::wide::Wide;
use focusless::render::contracts::{ExportFormat, ImageInfo, PreviewRequest};
use focusless::render::geometry::Angle;
use focusless::session::crop::aspect_mode;
use focusless::session::curve_mode::{drag, point_can_be_dragged};
use focusless::session::edit::Slider;
use focusless::session::gesture::{constrained_crop_size, crop_from_gesture, gesture_is_possible};
use focusless::session::input::{
    ensure_project_extension, equals_ignoring_case, export_format, has_extension,
    parse_numeric_value, submitted_value,
};
use focusless::session::open::{Opened, Opening};
use focusless::session::output::{CopyStep, Step};
use focusless::session::preview::{canvas_size, original_comparison_operations, Place};
use focusless::session::state::{PendingOpen, Session};

const CANVAS: (u32, u32) = (800, 600);

fn f(value: f32) -> Scalar {
    Scalar::from_bits(value.to_bits())
}

fn plain(value: Scalar) -> f32 {
    f32::from_bits(value.to_bits())
}

fn level() -> Angle {
    Angle {
        sine: Wide::from_bits(0.0f64.to_bits()),
        cosine: Wide::from_bits(1.0f64.to_bits()),
    }
}

fn fingerprint() -> SourceFingerprint {
    SourceFingerprint {
        byte_len: 9,
        modified_unix_ms: Some(1),
        sample_blake3: "abc".into(),
        width: 400,
        height: 200,
    }
}

/// A session with a photo of 400 by 200 pixels open.
fn opened() -> Session {
    let mut session = Session::new("/recovery/untitled.focusless".into());
    let (autosave, opening) = session.begin_open("/photos/a.jpg");
    assert!(autosave.is_none());
    assert_eq!(opening, Opening::InspectPhoto);
    let pending = session.take_pending("/photos/a.jpg").unwrap();
    let (how, request) = session.finish_open(
        pending,
        ImageInfo { width: 400, height: 200 },
        Some(fingerprint()),
        0,
        CANVAS,
    );
    assert_eq!(how, Opened::NewDocument);
    assert_eq!(request.unwrap().generation, 1);
    session
}

fn document(session: &Session) -> &ProjectDocument {
    session.document.as_ref().unwrap()
}

fn rect() -> CropRect {
    CropRect { x: f(0.1), y: f(0.2), width: f(0.8), height: f(0.6) }
}

#[test]
fn original_comparison_keeps_geometry_and_removes_adjustments() {
    let operations = vec![
        Operation::Rotate { quarter_turns: 1 },
        Operation::Straighten { degrees: f(3.5) },
        Operation::Crop { rect: rect() },
        Operation::Denoise { luma_denoise: f(40.0), color_denoise: f(20.0) },
        Operation::Exposure { ev: f(1.0) },
        Operation::Frame { width_pct: f(10.0), color: FrameColor::black() },
    ];

    assert_eq!(original_comparison_operations(&operations), operations[..3]);
}

#[test]
fn free_crop_supports_all_four_edges() {
    let left = crop_from_gesture(rect(), 5, f(0.1), f(0.0), None).unwrap();
    assert!((plain(left.x) - 0.2).abs() < 0.0001);
    assert!((plain(left.width) - 0.7).abs() < 0.0001);

    let top = crop_from_gesture(rect(), 6, f(0.0), f(0.1), None).unwrap();
    assert!((plain(top.y) - 0.3).abs() < 0.0001);
    assert!((plain(top.height) - 0.5).abs() < 0.0001);

    let right = crop_from_gesture(rect(), 7, f(-0.1), f(0.0), None).unwrap();
    assert!((plain(right.width) - 0.7).abs() < 0.0001);

    let bottom = crop_from_gesture(rect(), 8, f(0.0), f(-0.1), None).unwrap();
    assert!((plain(bottom.height) - 0.5).abs() < 0.0001);
}

#[test]
fn locked_edge_resize_preserves_aspect() {
    let square = CropRect { x: f(0.2), y: f(0.2), width: f(0.6), height: f(0.6) };
    let resized = crop_from_gesture(square, 7, f(-0.2), f(0.0), Some(f(1.0))).unwrap();
    assert!((plain(resized.width) - plain(resized.height)).abs() < 0.0001);
    assert!((plain(resized.y) - 0.3).abs() < 0.0001);
}

#[test]
fn numeric_input_accepts_only_numbers_and_decimal_comma() {
    let parse = |text: &str| -> Option<f32> {
        parse_numeric_value(text).and_then(|number| number.parse::<f32>().ok())
    };
    assert_eq!(parse("+1.2"), Some(1.2));
    assert_eq!(parse("-12"), Some(-12.0));
    assert_eq!(parse("7,5"), Some(7.5));
    assert_eq!(parse("+1.2 EV"), None);
    assert_eq!(parse("-12°"), None);
    assert_eq!(parse("7.5%"), None);
    assert_eq!(parse("1e2"), None);
    assert_eq!(parse("not a number"), None);
    assert_eq!(parse("NaN"), None);
    assert_eq!(parse_numeric_value("  3,25 "), Some("3.25".to_string()));
    assert_eq!(parse_numeric_value("\u{a0}\t4\u{2003}\n"), Some("4".to_string()));
    assert_eq!(parse_numeric_value("\u{200b}4"), None);
    assert_eq!(parse_numeric_value("+"), None);
    assert_eq!(parse_numeric_value("1,2,3"), None);
    assert_eq!(parse_numeric_value(""), None);
}

#[test]
fn typed_numbers_are_brought_into_range() {
    assert_eq!(submitted_value(Some(f(9.0)), f(-3.0), f(3.0)), Some(f(3.0)));
    assert_eq!(submitted_value(Some(f(1.5)), f(-3.0), f(3.0)), Some(f(1.5)));
    assert_eq!(submitted_value(Some(f(f32::INFINITY)), f(-3.0), f(3.0)), None);
    assert_eq!(submitted_value(None, f(-3.0), f(3.0)), None);
}

#[test]
fn file_names_tell_what_they_hold() {
    assert!(has_extension("/a/B.FOCUSLESS", "focusless"));
    assert!(!has_extension("/a/b", "focusless"));
    assert!(equals_ignoring_case("JPeG", "jpEg"));
    assert!(!equals_ignoring_case("jpg", "jpeg"));
    assert_eq!(ensure_project_extension("/a/b"), "/a/b.focusless");
    assert_eq!(ensure_project_extension("/a/b.jpg"), "/a/b.focusless");
    assert_eq!(ensure_project_extension("/a/b.FocusLess"), "/a/b.FocusLess");
    assert_eq!(ensure_project_extension("/a/.b"), "/a/.b.focusless");
    assert_eq!(ensure_project_extension("/a/b.c.d"), "/a/b.c.focusless");
    assert!(!has_extension("/a/.focusless", "focusless"));
    assert!(has_extension("/a/..focusless", "focusless"));
    assert_eq!(export_format("/a.JPG"), Some(ExportFormat::Jpeg { quality: 92 }));
    assert_eq!(export_format("/a.jpeg"), Some(ExportFormat::Jpeg { quality: 92 }));
    assert_eq!(export_format("/a.png"), Some(ExportFormat::Png));
    assert_eq!(export_format("/a.webp"), Some(ExportFormat::WebP { quality: 90 }));
    assert_eq!(export_format("/a.tif"), None);
    assert_eq!(export_format("/a"), None);
}

#[test]
fn every_gesture_leaves_a_valid_crop() {
    let mut document = document(&opened()).duplicate();
    for kind in 0..=8 {
        for delta in [-2.0f32, -0.35, -0.1, 0.0, 0.05, 0.4, 3.0e38] {
            for aspect in [None, Some(f(1.0)), Some(f(0.3)), Some(f(40.0)), Some(f(-1.0))] {
                assert!(gesture_is_possible(rect(), kind, f(delta), f(-delta), aspect));
                let changed = crop_from_gesture(rect(), kind, f(delta), f(-delta), aspect).unwrap();
                assert_eq!(document.preview_crop(changed), Ok(()), "{kind} {delta} {aspect:?}");
            }
        }
    }
    assert_eq!(crop_from_gesture(rect(), 9, f(0.0), f(0.0), None), None);
    let (width, height) = constrained_crop_size(f(0.9), f(0.8), f(0.5), f(1.0));
    assert_eq!((width, height), (f(0.5), f(0.5)));
}

#[test]
fn a_crop_too_wide_to_move_is_told() {
    let wide = CropRect { x: f(0.0), y: f(0.0), width: f(1.000_005), height: f(0.5) };
    assert!(!gesture_is_possible(wide, 0, f(0.1), f(0.1), None));
}

#[test]
fn aspects_are_told_apart() {
    assert_eq!(aspect_mode(f(1.0)), 1);
    assert_eq!(aspect_mode(f(1.005)), 1);
    assert_eq!(aspect_mode(f(4.0 / 3.0)), 2);
    assert_eq!(aspect_mode(f(1.777_778)), 3);
}

#[test]
fn the_canvas_is_measured_in_pixels() {
    assert_eq!(canvas_size(100, 50, f(1.5)), (150, 75));
    assert_eq!(canvas_size(-4, 50, f(2.0)), (0, 100));
    assert_eq!(canvas_size(100_000, 50, f(1.0)), (4096, 50));
}

#[test]
fn a_drag_becomes_one_command() {
    let mut session = opened();
    for value in [5.0f32, 20.0, 35.0] {
        let request = session
            .preview_slider(Slider::Contrast, f(value), 10, CANVAS)
            .unwrap()
            .unwrap();
        assert!(request.operations.contains(&Operation::Contrast { amount: f(value) }));
    }
    assert_eq!(document(&session).history.undo_len(), 0);
    session.commit_slider(Slider::Contrast, f(35.0), 20, CANVAS).unwrap();
    assert_eq!(document(&session).history.undo_len(), 1);
    assert_eq!(session.offers(), (true, false));
    assert!(session.undo(30, CANVAS).is_some());
    assert_eq!(document(&session).contrast(), f(0.0));
    assert_eq!(session.offers(), (false, true));
    assert!(session.redo(40, CANVAS).is_some());
    assert_eq!(document(&session).contrast(), f(35.0));
}

#[test]
fn numbers_out_of_range_are_limited() {
    let mut session = opened();
    session.commit_slider(Slider::Exposure, f(9.0), 0, CANVAS).unwrap();
    assert_eq!(document(&session).exposure_ev(), f(3.0));
    session.commit_slider(Slider::Sharpness, f(-4.0), 0, CANVAS).unwrap();
    assert_eq!(document(&session).sharpness(), f(0.0));
    session.commit_slider(Slider::Vignette, f(70.0), 0, CANVAS).unwrap();
    assert_eq!(document(&session).vignette(), f(0.7));
    session.commit_slider(Slider::Frame, f(60.0), 0, CANVAS).unwrap();
    assert_eq!(document(&session).frame(), (f(50.0), FrameColor::white()));
    assert_eq!(
        session.preview_slider(Slider::Exposure, f(f32::NAN), 0, CANVAS),
        Err(DocumentError::InvalidExposure)
    );
    assert_eq!(document(&session).exposure_ev(), f(3.0));
}

#[test]
fn parts_of_an_operation_are_set_apart() {
    let mut session = opened();
    session.commit_slider(Slider::Shadows, f(10.0), 0, CANVAS).unwrap();
    session.commit_slider(Slider::Highlights, f(-20.0), 0, CANVAS).unwrap();
    assert_eq!(
        document(&session).shadows_highlights(),
        ShadowsHighlights { shadows: f(10.0), highlights: f(-20.0) }
    );
    session.commit_slider(Slider::Temperature, f(5.0), 0, CANVAS).unwrap();
    session.commit_slider(Slider::Tint, f(6.0), 0, CANVAS).unwrap();
    assert_eq!(document(&session).white_balance().temperature, f(5.0));
    assert_eq!(document(&session).white_balance().tint, f(6.0));
    session.commit_slider(Slider::LumaDenoise, f(30.0), 0, CANVAS).unwrap();
    session.commit_slider(Slider::ColorDenoise, f(40.0), 0, CANVAS).unwrap();
    assert_eq!(document(&session).denoise(), (f(30.0), f(40.0)));
    assert!(session.reset_slider(Slider::LumaDenoise, 0, CANVAS).is_some());
    assert_eq!(document(&session).denoise(), (f(0.0), f(40.0)));
    assert!(session.reset_slider(Slider::Shadows, 0, CANVAS).is_some());
    assert_eq!(document(&session).shadows_highlights().highlights, f(-20.0));
    assert_eq!(document(&session).history.undo_len(), 8);
}

#[test]
fn entering_a_number_also_asks_for_a_preview() {
    let mut session = opened();
    let (error, request) = session.submit_slider(Slider::Saturation, f(12.0), 0, CANVAS);
    assert_eq!(error, None);
    let request = request.unwrap();
    assert!(request.operations.contains(&Operation::Saturation { amount: f(12.0) }));
    assert_eq!(request.generation, 2);
}

#[test]
fn a_frame_changes_its_colour_and_is_reset_to_white() {
    let mut session = opened();
    session.commit_slider(Slider::Frame, f(10.0), 0, CANVAS).unwrap();
    assert!(session.change_frame_color(FrameColor::black(), 0, CANVAS).unwrap().is_some());
    assert_eq!(document(&session).frame(), (f(10.0), FrameColor::black()));
    assert!(session.reset_slider(Slider::Frame, 0, CANVAS).is_some());
    assert_eq!(document(&session).frame(), (f(0.0), FrameColor::white()));
}

#[test]
fn straightening_shows_the_photo_whole() {
    let mut session = opened();
    session.set_zoom(f(2.0), 0, CANVAS);
    session.changed_at = None;
    session.preview_slider(Slider::Rotation, f(5.0), 7, CANVAS).unwrap();
    assert_eq!(document(&session).view, ViewState::default());
    assert_eq!(session.changed_at, None);
    assert!(session.commit_slider(Slider::Rotation, f(6.0), 8, CANVAS).unwrap().is_some());
    assert_eq!(document(&session).straighten_degrees(), f(6.0));
    assert_eq!(session.changed_at, Some(8));
    assert!(session.reset_rotation(9, CANVAS).unwrap().is_some());
    assert_eq!(document(&session).straighten_degrees(), f(0.0));
    assert_eq!(session.reset_rotation(9, CANVAS), Ok(None));
}

#[test]
fn the_photo_is_turned_with_its_crop() {
    let mut session = opened();
    let (turned, request) = session.rotate_quarter_turn(1, 0, CANVAS).unwrap();
    assert!(turned && request.is_some());
    assert_eq!(document(&session).rotation_quarter_turns(), 1);
    let (turned, request) = session.rotate_quarter_turn(1000, 0, CANVAS).unwrap();
    assert!(!turned && request.is_none());
    session.rotate_quarter_turn(-1, 0, CANVAS).unwrap();
    assert_eq!(document(&session).rotation_quarter_turns(), 0);
}

#[test]
fn restoring_takes_everything_back_once() {
    let mut session = opened();
    assert_eq!(session.restore_original(0, CANVAS), (false, None));
    session.commit_slider(Slider::Contrast, f(35.0), 0, CANVAS).unwrap();
    let (restored, request) = session.restore_original(1, CANVAS);
    assert!(restored && request.is_some());
    assert_eq!(document(&session).contrast(), f(0.0));
    session.undo(2, CANVAS);
    assert_eq!(document(&session).contrast(), f(35.0));
}

#[test]
fn giving_a_crop_up_leaves_the_document_as_it_was() {
    let mut session = opened();
    session.set_zoom(f(2.0), 5, CANVAS);
    let before = document(&session).duplicate();
    let (autosave, request) = session.start_crop(6, CANVAS);
    assert_eq!(autosave.unwrap().path, "/recovery/untitled.focusless");
    let request = request.unwrap();
    assert_eq!(request.viewport.zoom, f(0.0));
    assert!(!request.operations.iter().any(|operation| operation.which() == Kind::Crop));
    assert_eq!(session.changed_at, None);
    assert!(session.update_crop_gesture(CropRect::full(), 5, f(0.25), f(0.0), level()));
    assert_eq!(document(&session).crop_rect().x, f(0.25));
    let (given_up, request) = session.cancel_crop(7, CANVAS);
    assert!(given_up && request.is_some());
    assert_eq!(*document(&session), before);
    assert_eq!(session.changed_at, None);
    assert_eq!(session.cancel_crop(8, CANVAS), (false, None));
}

#[test]
fn applying_a_crop_is_one_step_back() {
    let mut session = opened();
    session.start_crop(0, CANVAS);
    session.update_crop_gesture(CropRect::full(), 5, f(0.25), f(0.0), level());
    session.update_crop_gesture(document(&session).crop_rect(), 8, f(0.0), f(-0.5), level());
    assert_eq!(session.offers(), (false, false));
    assert!(session.undo(1, CANVAS).is_none());
    assert!(session.apply_crop(2, CANVAS).unwrap().is_some());
    let applied = document(&session).crop_rect();
    assert_eq!((applied.x, applied.width, applied.height), (f(0.25), f(0.75), f(0.5)));
    assert_eq!(document(&session).history.undo_len(), 1);
    session.undo(3, CANVAS);
    assert_eq!(document(&session).crop_rect(), CropRect::full());
}

#[test]
fn a_chosen_aspect_is_the_largest_in_the_middle() {
    let mut session = opened();
    session.start_crop(0, CANVAS);
    assert!(session.is_possible_aspect(f(1.0), level()));
    session.set_crop_aspect(f(1.0), level());
    let square = document(&session).crop_rect();
    assert_eq!((square.x, square.y), (f(0.25), f(0.0)));
    assert_eq!((square.width, square.height), (f(0.5), f(1.0)));
    assert_eq!(session.normalized_crop_aspect(level()), Some(f(0.5)));
    session.set_crop_aspect(f(-1.0), level());
    assert_eq!(session.normalized_crop_aspect(level()), None);
    assert_eq!(document(&session).crop_rect(), square);
    session.set_crop_aspect(f(0.0), level());
    assert_eq!(document(&session).crop_rect(), CropRect::full());
    assert!(!session.is_possible_aspect(f(f32::NAN), level()));
}

#[test]
fn the_crop_overlay_lies_on_the_photo() {
    let mut session = opened();
    assert_eq!(session.crop_overlay(f(1.0), (800, 600), level()), None);
    session.start_crop(0, CANVAS);
    let generation = session.newest_generation;
    session.preview_ready(generation, f(0.5), CANVAS);
    let overlay = session.crop_overlay(f(2.0), (800, 600), level()).unwrap();
    assert_eq!((overlay.width, overlay.height), (f(100.0), f(50.0)));
    assert_eq!((overlay.x, overlay.y), (f(350.0), f(275.0)));
}

#[test]
fn only_the_exposure_can_be_changed_while_cropping() {
    let mut session = opened();
    session.start_crop(0, CANVAS);
    assert_eq!(session.preview_slider(Slider::Contrast, f(5.0), 0, CANVAS), Ok(None));
    assert!(session.preview_slider(Slider::Exposure, f(0.5), 0, CANVAS).unwrap().is_some());
    assert!(session.set_zoom(f(1.0), 0, CANVAS).is_none());
    assert!(session.start_curve().is_none());
    assert!(session.curve_edit_start.is_none());
}

#[test]
fn every_drag_of_a_curve_point_is_one_command() {
    let mut session = opened();
    assert!(session.start_curve().is_some());
    assert!(session.preview_slider(Slider::Exposure, f(0.5), 0, CANVAS).unwrap().is_none());
    let request = session.preview_curve(1, f(0.4), f(0.6), 0, CANVAS).unwrap();
    assert!(request.is_some());
    assert_eq!(session.preview_curve(7, f(0.4), f(0.6), 0, CANVAS), Ok(None));
    assert_eq!(session.commit_curve_change(5), Ok(true));
    assert_eq!(session.commit_curve_change(6), Ok(false));
    session.preview_curve(0, f(0.1), f(0.2), 0, CANVAS).unwrap();
    assert_eq!(session.finish_curve(7), Ok(true));
    assert_eq!(document(&session).history.undo_len(), 2);
    assert_eq!(document(&session).tone_curve().midtone_input, f(0.4));
    session.start_curve();
    let (result, request) = session.reset_curve(8, CANVAS);
    assert_eq!(result, Ok(true));
    assert!(request.is_some());
    assert_eq!(document(&session).tone_curve(), ToneCurve::identity());
}

#[test]
fn curve_points_keep_their_order() {
    let straight = ToneCurve::identity();
    for point in 0..3 {
        assert!(point_can_be_dragged(straight, point));
    }
    let dragged = drag(straight, 0, f(0.9), f(2.0)).unwrap();
    assert_eq!(dragged.shadow_input, f(0.5 - 0.001));
    assert_eq!(dragged.shadows, f(1.0));
    let dragged = drag(straight, 2, f(0.0), f(-2.0)).unwrap();
    assert_eq!(dragged.highlight_input, f(0.5 + 0.001));
    assert_eq!(dragged.highlights, f(0.0));
    assert_eq!(drag(straight, 3, f(0.5), f(0.5)), None);
}

#[test]
fn overtaken_previews_are_dropped() {
    let mut session = opened();
    let first = session.newest_generation;
    let second = session.set_zoom(f(1.0), 0, CANVAS).unwrap().generation;
    assert_eq!(session.preview_ready(first, f(0.1), CANVAS), (Place::Nowhere, None));
    assert_eq!(session.effective_zoom, f(1.0));
    assert_eq!(session.preview_ready(second, f(0.7), CANVAS), (Place::Photo, None));
    assert_eq!(session.effective_zoom, f(0.7));
    assert_eq!(session.render_requested_at, None);
}

#[test]
fn the_original_is_asked_for_behind_the_photo_and_only_once() {
    let mut session = opened();
    session.commit_slider(Slider::Exposure, f(1.0), 0, CANVAS).unwrap();
    let request = session.toggle_original(0, CANVAS).unwrap();
    assert_eq!(request.viewport.output_width, 400);
    let (place, original) = session.preview_ready(request.generation, f(0.5), CANVAS);
    assert_eq!(place, Place::Photo);
    let original: PreviewRequest = original.unwrap();
    assert!(original.generation >= 1 << 63);
    assert_eq!(original.operations.len(), 3);
    assert_eq!(
        session.preview_ready(original.generation, f(0.5), CANVAS),
        (Place::Original, None)
    );
    let again = session.preview_slider(Slider::Exposure, f(2.0), 0, CANVAS).unwrap().unwrap();
    assert_eq!(session.preview_ready(again.generation, f(0.5), CANVAS), (Place::Photo, None));
    session.toggle_original(0, CANVAS);
    assert!(!session.show_original && session.original_preview_key.is_none());
}

#[test]
fn a_canvas_too_small_is_not_drawn_on() {
    let mut session = opened();
    assert!(session.set_zoom(f(1.0), 0, (63, 600)).is_none());
    assert_eq!(session.last_canvas_size, CANVAS);
    assert_eq!(session.newest_generation, 1);
}

#[test]
fn a_resized_canvas_asks_for_a_preview() {
    let mut session = opened();
    assert!(session.tick(0, CANVAS).preview.is_none());
    let preview = session.tick(0, (700, 600)).preview.unwrap();
    assert_eq!(preview.viewport.output_width, 700);
    assert!(session.tick(0, (10, 600)).preview.is_none());
}

#[test]
fn slow_previews_are_announced() {
    let mut session = opened();
    assert!(!session.is_awaiting(179));
    assert!(session.is_awaiting(180));
    session.preview_failed();
    assert!(!session.is_awaiting(1000));
}

#[test]
fn changes_are_saved_half_a_second_later() {
    let mut session = opened();
    assert!(session.tick(10_000, CANVAS).autosave.is_none());
    session.commit_slider(Slider::Exposure, f(1.0), 1000, CANVAS).unwrap();
    assert!(session.tick(1499, CANVAS).autosave.is_none());
    let autosave = session.tick(1500, CANVAS).autosave.unwrap();
    assert_eq!(autosave.path, "/recovery/untitled.focusless");
    assert_eq!(autosave.document.exposure_ev(), f(1.0));
    assert!(session.tick(9000, CANVAS).autosave.is_none());
}

#[test]
fn a_project_keeps_its_file_when_saving_fails() {
    let mut session = opened();
    let (step, _) = session.begin_save(false, 0);
    assert!(matches!(step, Step::Ask(name) if name == "a.focusless"));
    let save = session.save_to("/projects/a.focusless").unwrap();
    assert_eq!(save.previous_project_path, None);
    let (step, _) = session.begin_save(false, 0);
    assert!(matches!(step, Step::To(path) if path == "/projects/a.focusless"));
    let (step, _) = session.begin_save(true, 0);
    assert!(matches!(step, Step::Ask(name) if name == "a.focusless"));
    let save = session.save_to("/projects/b.focusless").unwrap();
    session.save_failed("/projects//b.focusless", save.previous_project_path);
    assert_eq!(session.project_path.as_deref(), Some("/projects/a.focusless"));
    session.save_failed("/projects/c.focusless", None);
    assert_eq!(session.project_path.as_deref(), Some("/projects/a.focusless"));
}

#[test]
fn a_crop_is_ended_before_saving_exporting_or_copying() {
    let mut session = opened();
    session.start_crop(0, CANVAS);
    assert!(matches!(session.begin_save(false, 0).0, Step::EndCropFirst));
    assert!(matches!(session.begin_export(0).0, Step::EndCropFirst));
    assert!(matches!(session.copy_image(), CopyStep::EndCropFirst));
    session.cancel_crop(0, CANVAS);
    assert!(matches!(session.copy_image(), CopyStep::Render(request) if request.source_path == "/photos/a.jpg"));
}

#[test]
fn saving_ends_a_change_of_the_curve() {
    let mut session = opened();
    session.start_curve();
    session.preview_curve(1, f(0.4), f(0.6), 0, CANVAS).unwrap();
    let (step, finished) = session.begin_save(false, 5);
    assert!(matches!(step, Step::Ask(_)));
    assert_eq!(finished, Ok(true));
    assert!(session.curve_edit_start.is_none());
    assert_eq!(document(&session).history.undo_len(), 1);
}

#[test]
fn exports_take_the_form_of_their_name() {
    let mut session = opened();
    let (step, _) = session.begin_export(0);
    assert!(matches!(step, Step::Ask(name) if name == "a-edited.jpg"));
    assert_eq!(session.export_to("/out/a.tif"), None);
    assert!(!session.exporting);
    let export = session.export_to("/out/a").unwrap();
    assert_eq!(export.destination_path, "/out/a.jpg");
    assert_eq!(export.format, ExportFormat::Jpeg { quality: 92 });
    assert!(session.exporting);
    assert!(matches!(session.begin_export(0).0, Step::Nothing));
    assert!(matches!(session.copy_image(), CopyStep::Nothing));
    session.set_exporting(false);
    assert!(matches!(session.begin_export(0).0, Step::Ask(_)));
}

#[test]
fn a_project_is_opened_with_the_photo_as_it_is() {
    let mut session = opened();
    session.start_crop(0, CANVAS);
    session.update_crop_gesture(CropRect::full(), 5, f(0.25), f(0.0), level());
    let (autosave, opening) = session.begin_open("/projects/B.Focusless");
    assert_eq!(opening, Opening::ReadProject);
    assert_eq!(autosave.unwrap().document.crop_rect(), CropRect::full());
    assert!(session.crop_edit_start.is_none());
    let mut project = ProjectDocument::new(SourceReference {
        path: "/gone/b.jpg".into(),
        fingerprint: fingerprint(),
    });
    project.view.center_x = f(7.0);
    let photo = session.project_read(
        "/projects/B.Focusless".into(),
        project,
        Some("/photos/b.jpg".into()),
    );
    assert_eq!(photo, "/photos/b.jpg");
    let pending = session.take_pending("/photos/b.jpg").unwrap();
    let mut found = fingerprint();
    found.byte_len = 10;
    let (how, _) = session.finish_open(
        pending,
        ImageInfo { width: 30, height: 20 },
        Some(found),
        0,
        CANVAS,
    );
    assert_eq!(how, Opened::ChangedSource);
    assert_eq!(how.message(), "The source photo changed; using the new version");
    assert_eq!(document(&session).source.fingerprint.byte_len, 10);
    assert_eq!(document(&session).view.center_x, f(1.0));
    assert_eq!(session.project_path.as_deref(), Some("/projects/B.Focusless"));
    assert_eq!(session.title().as_deref(), Some("b.jpg"));
}

#[test]
fn a_recovered_project_has_no_file() {
    let mut session = opened();
    let project = document(&session).duplicate();
    let photo = session.project_read("/recovery//untitled.focusless".into(), project, None);
    assert_eq!(photo, "/photos/a.jpg");
    assert!(matches!(
        session.pending_open,
        Some(PendingOpen::Project { path: None, .. })
    ));
    let pending = session.take_pending("/photos/a.jpg").unwrap();
    let (how, _) =
        session.finish_open(pending, ImageInfo { width: 3, height: 2 }, None, 0, CANVAS);
    assert_eq!(how, Opened::MissingSource);
    assert_eq!(session.project_path, None);
}

#[test]
fn a_photo_that_was_overtaken_is_not_opened() {
    let mut session = opened();
    session.begin_open("/photos/b.jpg");
    session.begin_open("/photos/c.jpg");
    assert!(session.take_pending("/photos/b.jpg").is_none());
    assert!(session.pending_open.is_none());
}

#[test]
fn zooming_and_panning_stay_on_the_photo() {
    let mut session = opened();
    assert!(session.pan(f(10.0), f(0.0), f(1.0), level(), 0, CANVAS).is_none());
    session.preview_ready(session.newest_generation, f(0.5), CANVAS);
    session.zoom_by(f(2.0), 0, CANVAS);
    assert_eq!(document(&session).view.zoom, f(1.0));
    session.zoom_by(f(1000.0), 0, CANVAS);
    assert_eq!(document(&session).view.zoom, f(32.0));
    session.set_zoom(f(1.0), 0, CANVAS);
    assert!(session.pan(f(40.0), f(-20.0), f(1.0), level(), 0, CANVAS).is_some());
    assert_eq!(document(&session).view.center_x, f(0.5 - 40.0 / 400.0));
    assert_eq!(document(&session).view.center_y, f(0.5 + 20.0 / 200.0));
    session.pan(f(-4000.0), f(0.0), f(1.0), level(), 0, CANVAS);
    assert_eq!(document(&session).view.center_x, f(1.0));
}

#[test]
fn nothing_happens_without_a_document() {
    let mut session = Session::new("/r".into());
    assert_eq!(session.preview_slider(Slider::Exposure, f(1.0), 0, CANVAS), Ok(None));
    assert!(session.undo(0, CANVAS).is_none());
    assert!(session.toggle_original(0, CANVAS).is_none());
    assert_eq!(session.title(), None);
    assert!(matches!(session.begin_save(false, 0).0, Step::Nothing));
    assert!(session.save_to("/a").is_none());
    assert!(matches!(session.copy_image(), CopyStep::Nothing));
    assert_eq!(session.offers(), (false, false));
    assert!(session.flush_autosave().is_none());
}

#[test]
fn a_locked_gesture_keeps_the_aspect_and_what_is_anchored() {
    let start = CropRect { x: f(0.2), y: f(0.3), width: f(0.4), height: f(0.3) };
    let aspect = plain(start.width) / plain(start.height);
    let edges = |rect: CropRect| {
        let (x, y) = (plain(rect.x), plain(rect.y));
        let (right, bottom) = (x + plain(rect.width), y + plain(rect.height));
        [x, y, right, bottom, (x + right) / 2.0, (y + bottom) / 2.0]
    };
    let before = edges(start);
    let anchors: [(i32, [usize; 2]); 8] = [
        (1, [2, 3]),
        (2, [0, 3]),
        (3, [2, 1]),
        (4, [0, 1]),
        (5, [2, 5]),
        (6, [3, 4]),
        (7, [0, 5]),
        (8, [1, 4]),
    ];
    for (kind, kept) in anchors {
        for delta in [-0.15f32, -0.02, 0.07, 0.9] {
            let changed =
                crop_from_gesture(start, kind, f(delta), f(-delta / 2.0), Some(f(aspect))).unwrap();
            let found = plain(changed.width) / plain(changed.height);
            assert!((found / aspect - 1.0).abs() < 1.0e-5, "{kind} {delta} {found}");
            let after = edges(changed);
            for edge in kept {
                assert!((after[edge] - before[edge]).abs() < 4.0e-6, "{kind} {delta} {after:?}");
            }
        }
    }
}

#[test]
fn a_session_tells_whether_the_photo_can_be_turned() {
    assert!(Session::new("/recovery/untitled.focusless".into()).is_ready_to_turn(1));
    let session = opened();
    for delta in [i32::MIN, -129, -1, 0, 1, 3, 1000] {
        assert!(session.is_ready_to_turn(delta));
    }
    let mut many = opened();
    many.document.as_mut().unwrap().operations = vec![Operation::Rotate { quarter_turns: 254 }];
    assert!(many.is_ready_to_turn(1));
    assert!(!many.is_ready_to_turn(2));
    assert!(!many.is_ready_to_turn(-1));
    assert!(many.is_ready_to_turn(4));
    let mut unmeasured = opened();
    let rect = CropRect { width: f(f32::NAN), ..rect() };
    unmeasured.document.as_mut().unwrap().operations = vec![Operation::Crop { rect }];
    assert!(unmeasured.is_ready_to_turn(0));
    assert!(!unmeasured.is_ready_to_turn(1));
}

#[test]
fn white_space_round_a_number_is_ignored() {
    let spaces = [
        '\u{9}', '\u{a}', '\u{b}', '\u{c}', '\u{d}', ' ', '\u{85}', '\u{a0}', '\u{1680}',
        '\u{2000}', '\u{200a}', '\u{2028}', '\u{2029}', '\u{202f}', '\u{205f}', '\u{3000}',
    ];
    for space in spaces {
        let words = format!("{space}{space}-2.5{space}");
        assert_eq!(words.trim(), "-2.5");
        assert_eq!(parse_numeric_value(&words), Some("-2.5".to_string()));
    }
    for other in ['\u{8}', '\u{e}', '\u{84}', '\u{180e}', '\u{200b}', '\u{2060}', '\u{feff}'] {
        let words = format!("{other}2.5");
        assert_eq!(words.trim(), words);
        assert_eq!(parse_numeric_value(&words), None);
    }
    assert_eq!(parse_numeric_value(" \u{3000} "), None);
    assert_eq!(parse_numeric_value("1 2"), None);
}
