use focusless::document::curve::ToneCurve;
use focusless::document::history::MAX_HISTORY_LEN;
use focusless::document::list;
use focusless::document::operation::{DocumentError, Kind, Operation, PROJECT_SCHEMA_VERSION};
use focusless::document::project::{neutral_operation, ProjectDocument};
use focusless::document::values::{
    CropRect, FrameColor, ShadowsHighlights, SourceFingerprint, SourceReference, WhiteBalance,
};
use focusless::number::scalar::Scalar;

fn f(value: f32) -> Scalar {
    Scalar::from_bits(value.to_bits())
}

fn plain(value: Scalar) -> f32 {
    f32::from_bits(value.to_bits())
}

fn document() -> ProjectDocument {
    ProjectDocument::new(SourceReference {
        path: String::from("/photos/lake.jpg"),
        fingerprint: SourceFingerprint {
            byte_len: 7,
            modified_unix_ms: None,
            sample_blake3: "00".into(),
            width: 60,
            height: 40,
        },
    })
}

fn crop(x: f32, y: f32, width: f32, height: f32) -> CropRect {
    CropRect { x: f(x), y: f(y), width: f(width), height: f(height) }
}

#[test]
fn document_errors_have_words() {
    let unsupported = DocumentError::UnsupportedSchema { found: 99, supported: 18 };
    assert_eq!(
        unsupported.message(),
        "unsupported project schema version 99; newest supported version is 18"
    );
    let words = [
        (DocumentError::InvalidExposure, "exposure must be finite and between -5 and +5 EV"),
        (DocumentError::InvalidContrast, "contrast must be finite and between -100 and +100"),
        (
            DocumentError::InvalidWhiteBalance,
            "temperature and tint must be finite and between -100 and +100",
        ),
        (DocumentError::InvalidSaturation, "saturation must be finite and between -100 and +100"),
        (
            DocumentError::InvalidVignette,
            "vignette strength must be finite and between 0.0 and 1.0",
        ),
        (DocumentError::InvalidSharpness, "sharpness must be finite and between 0 and 1000"),
        (
            DocumentError::InvalidShadowsHighlights,
            "shadows and highlights must be finite and between -100 and +100",
        ),
        (DocumentError::InvalidRotation, "rotation must be between 0 and 3 quarter turns"),
        (
            DocumentError::InvalidStraighten,
            "straighten angle must be finite and between -45 and +45 degrees",
        ),
        (
            DocumentError::InvalidCrop,
            "crop rectangle must be finite, inside the image, and at least 1% wide and high",
        ),
        (
            DocumentError::InvalidToneCurve,
            "tone curve points must be finite, inside the 0 to 1 interval, and ordered by input",
        ),
        (DocumentError::InvalidFrame, "frame width must be finite and between 0 and 50 percent"),
        (DocumentError::InvalidDenoise, "denoise amounts must be finite and between 0 and 100"),
    ];
    for (error, expected) in words {
        assert_eq!(error.message(), expected);
    }
}

#[test]
fn denoise_transaction_is_undoable_and_redoable() {
    let mut document = document();
    assert_eq!(document.denoise(), (f(0.0), f(0.0)));
    document.preview_denoise(f(30.0), f(0.0)).unwrap();
    document.commit_denoise(f(0.0), f(0.0), f(30.0), f(45.0)).unwrap();
    assert_eq!(document.denoise(), (f(30.0), f(45.0)));
    assert!(document.undo());
    assert_eq!(document.denoise(), (f(0.0), f(0.0)));
    assert!(document.redo());
    assert_eq!(document.denoise(), (f(30.0), f(45.0)));
}

#[test]
fn rejects_invalid_denoise() {
    let mut document = document();
    for (luma, color) in [(-0.1, 0.0), (0.0, 100.5), (f32::NAN, 0.0), (0.0, f32::INFINITY)] {
        assert_eq!(
            document.preview_denoise(f(luma), f(color)),
            Err(DocumentError::InvalidDenoise)
        );
    }
    assert_eq!(document.denoise(), (f(0.0), f(0.0)));
}

#[test]
fn rejects_invalid_shadows_and_highlights() {
    let mut document = document();
    let adjustment = ShadowsHighlights { shadows: f(101.0), highlights: f(0.0) };
    assert_eq!(
        document.preview_shadows_highlights(adjustment),
        Err(DocumentError::InvalidShadowsHighlights)
    );
    assert!(document.shadows_highlights().is_identity());
}

#[test]
fn a_newer_document_is_not_upgraded() {
    let mut document = document();
    document.schema_version = PROJECT_SCHEMA_VERSION + 1;
    let expected = DocumentError::UnsupportedSchema {
        found: PROJECT_SCHEMA_VERSION + 1,
        supported: PROJECT_SCHEMA_VERSION,
    };
    assert_eq!(document.upgrade_to_latest(), Err(expected));
    assert_eq!(document.validate(), Err(expected));
}

#[test]
fn upgrading_a_second_time_changes_nothing() {
    let mut document = document();
    document.schema_version = 6;
    document.operations = vec![
        Operation::Exposure { ev: f(0.5) },
        Operation::Contrast { amount: f(12.0) },
    ];
    document.upgrade_to_latest().unwrap();
    let once = document.duplicate();
    document.upgrade_to_latest().unwrap();
    assert_eq!(document, once);
    assert_eq!(document.validate(), Ok(()));
    assert_eq!(document.exposure_ev(), f(0.5));
    assert_eq!(document.contrast(), f(12.0));
}

#[test]
fn a_refused_edit_leaves_the_document_as_it_was() {
    let mut document = document();
    document.commit_exposure(f(0.0), f(1.0)).unwrap();
    let before = document.duplicate();
    assert!(document.commit_exposure(f(1.0), f(5.1)).is_err());
    assert!(document.commit_frame(f(0.0), FrameColor::white(), f(51.0), FrameColor::black()).is_err());
    assert_eq!(document, before);
}

#[test]
fn a_change_too_small_to_tell_leaves_no_command() {
    let mut document = document();
    document.commit_saturation(f(0.0), f(0.0)).unwrap();
    document.commit_white_balance(WhiteBalance::identity(), WhiteBalance::identity()).unwrap();
    assert!(!document.history.can_undo());
}

#[test]
fn the_oldest_commands_are_forgotten() {
    let mut document = document();
    for step in 0..(MAX_HISTORY_LEN + 5) {
        let (before, after) = (f(step as f32), f((step + 1) as f32));
        document.commit_contrast(before, after).unwrap();
    }
    assert_eq!(document.history.undo_len(), MAX_HISTORY_LEN);
    let mut undone: usize = 0;
    while document.undo() {
        undone += 1;
    }
    assert_eq!(undone, MAX_HISTORY_LEN);
    assert_eq!(document.contrast(), f(5.0));
    while document.redo() {}
    assert_eq!(document.contrast(), f((MAX_HISTORY_LEN + 5) as f32));
    assert_eq!(document.history.redo_len(), 0);
}

#[test]
fn four_turns_are_none_and_each_is_one_step() {
    let mut document = document();
    document.commit_crop(CropRect::full(), crop(0.25, 0.0, 0.5, 0.75)).unwrap();
    let start = document.crop_rect();
    for _ in 0..4 {
        document.rotate_by(1).unwrap();
        assert_eq!(document.validate(), Ok(()));
    }
    assert_eq!(document.rotation_quarter_turns(), 0);
    assert_eq!(document.crop_rect(), start);
    assert_eq!(document.history.undo_len(), 5);
    document.rotate_by(-1).unwrap();
    assert_eq!(document.rotation_quarter_turns(), 3);
    assert!(document.undo());
    assert_eq!(document.rotation_quarter_turns(), 0);
    assert_eq!(document.crop_rect(), start);
}

#[test]
fn a_normalized_crop_lies_inside() {
    let rects = [
        crop(-0.5, 0.2, 2.0, 0.3),
        crop(0.999, 0.999, 0.5, 0.0),
        crop(0.3, 0.7, 0.7, 0.3),
        crop(4.0, -4.0, -1.0, 1.0e-9),
    ];
    for rect in rects {
        let mut document = document();
        assert_eq!(document.preview_crop(rect.normalized()), Ok(()));
    }
    assert_eq!(crop(-0.5, 0.2, 2.0, 0.3).normalized(), crop(0.0, 0.2, 1.0, 0.3));
}

#[test]
fn a_curve_passes_through_its_points_and_leaves_the_outside_alone() {
    let curve = ToneCurve {
        shadow_input: f(0.2),
        shadows: f(0.35),
        midtone_input: f(0.55),
        midtones: f(0.4),
        highlight_input: f(0.8),
        highlights: f(0.95),
    };
    let points = [(0.0, 0.0), (0.2, 0.35), (0.55, 0.4), (0.8, 0.95), (1.0, 1.0)];
    for (input, value) in points {
        assert!((plain(curve.sample(f(input))) - value).abs() < 1.0e-6);
    }
    assert_eq!(curve.sample(f(-0.25)), f(-0.25));
    assert_eq!(curve.sample(f(1.5)), f(1.5));
    assert_eq!(ToneCurve::identity().sample(f(0.5)), f(0.5));
}

#[test]
fn a_curve_stays_between_its_points() {
    let curves = [
        [0.001, 1.0, 0.5, 0.0, 0.999, 1.0],
        [0.2, 0.0, 0.201, 1.0, 0.202, 0.0],
        [0.3, 0.3, 0.4, 0.300_000_1, 0.95, 0.2],
        [0.25, 0.9, 0.5, 0.9, 0.75, 0.1],
    ];
    for [shadow_input, shadows, midtone_input, midtones, highlight_input, highlights] in curves {
        let curve = ToneCurve {
            shadow_input: f(shadow_input),
            shadows: f(shadows),
            midtone_input: f(midtone_input),
            midtones: f(midtones),
            highlight_input: f(highlight_input),
            highlights: f(highlights),
        };
        let inputs = [0.0, shadow_input, midtone_input, highlight_input, 1.0];
        let values = [0.0, shadows, midtones, highlights, 1.0];
        for index in 0..=2000 {
            let x = index as f32 / 2000.0;
            let segment = (0..4).find(|&s| x <= inputs[s + 1]).unwrap_or(3);
            let low = values[segment].min(values[segment + 1]) - 1.0 / 16384.0;
            let high = values[segment].max(values[segment + 1]) + 1.0 / 16384.0;
            let value = plain(curve.sample(f(x)));
            assert!(low <= value && value <= high);
        }
    }
}

#[test]
fn a_curve_does_not_turn_between_its_points() {
    let curves = [
        [0.001, 1.0, 0.5, 0.0, 0.999, 1.0],
        [0.1, 0.0, 0.5, 0.9, 0.6, 0.95],
        [0.25, 0.9, 0.5, 0.9, 0.75, 0.1],
    ];
    for [shadow_input, shadows, midtone_input, midtones, highlight_input, highlights] in curves {
        let curve = ToneCurve {
            shadow_input: f(shadow_input),
            shadows: f(shadows),
            midtone_input: f(midtone_input),
            midtones: f(midtones),
            highlight_input: f(highlight_input),
            highlights: f(highlights),
        };
        let inputs = [0.0, shadow_input, midtone_input, highlight_input, 1.0];
        let values = [0.0, shadows, midtones, highlights, 1.0];
        for segment in 0..4 {
            let direction = if values[segment] <= values[segment + 1] { 1.0 } else { -1.0 };
            let width = inputs[segment + 1] - inputs[segment];
            let mut best = direction * values[segment];
            for index in 0..=500 {
                let x: f32 = inputs[segment] + width * (index as f32 / 500.0);
                let value = direction * plain(curve.sample(f(x.min(1.0))));
                assert!(value >= best - 1.0 / 8192.0);
                best = best.max(value);
            }
        }
    }
}

#[test]
fn a_curve_of_rising_points_keeps_the_order_of_tones() {
    let curve = ToneCurve {
        shadow_input: f(0.2),
        shadows: f(0.05),
        midtone_input: f(0.3),
        midtones: f(0.8),
        highlight_input: f(0.7),
        highlights: f(0.8),
    };
    let mut best: f32 = 0.0;
    for index in 0..=4000 {
        let value = plain(curve.sample(f(index as f32 / 4000.0)));
        assert!(value >= best - 1.0 / 8192.0);
        best = best.max(value);
    }
    assert_eq!(plain(curve.sample(f(1.0))), 1.0);
}

#[test]
fn restoring_takes_every_adjustment_back_at_once() {
    let mut document = document();
    document.commit_vignette(f(0.0), f(0.5)).unwrap();
    document.commit_denoise(f(0.0), f(0.0), f(5.0), f(6.0)).unwrap();
    document.rotate_by(1).unwrap();
    let edited = document.operations.clone();
    assert!(document.restore_original());
    assert_eq!(document.operations, list::default_operations());
    assert!(!document.restore_original());
    assert!(document.undo());
    assert_eq!(document.operations, edited);
}

#[test]
fn the_last_operation_of_a_kind_counts() {
    let mut document = document();
    document.operations.push(Operation::Exposure { ev: f(2.0) });
    assert_eq!(document.exposure_ev(), f(2.0));
    assert_eq!(document.operation(Kind::Exposure), Operation::Exposure { ev: f(2.0) });
    document.operations.clear();
    assert_eq!(document.operation(Kind::Frame), neutral_operation(Kind::Frame));
    assert_eq!(document.frame(), (f(0.0), FrameColor::white()));
}

#[test]
fn an_operation_that_is_missing_is_added() {
    let mut document = document();
    document.operations.clear();
    document.preview_sharpness(f(250.0)).unwrap();
    assert_eq!(document.operations, vec![Operation::Sharpness { amount: f(250.0) }]);
    document.preview_sharpness(f(1000.0)).unwrap();
    assert_eq!(document.operations, vec![Operation::Sharpness { amount: f(1000.0) }]);
}

fn assert_near(found: CropRect, expected: CropRect, tolerance: f32) {
    for (a, b) in [
        (found.x, expected.x),
        (found.y, expected.y),
        (found.width, expected.width),
        (found.height, expected.height),
    ] {
        assert!((plain(a) - plain(b)).abs() <= tolerance, "{found:?} {expected:?}");
    }
}

#[test]
fn turning_a_crop_back_gives_it_back() {
    for rect in [
        crop(0.1, 0.2, 0.8, 0.6),
        crop(0.0, 0.0, 1.0, 1.0),
        crop(0.3, 0.7, 0.02, 0.3),
        crop(1.0 / 3.0, 1.0 / 7.0, 0.51, 0.6),
    ] {
        let right = rect.rotated_right();
        assert_eq!((right.width, right.height), (rect.height, rect.width));
        assert_near(right.rotated_left(), rect, 1.0 / 1_048_576.0);
        assert_near(rect.rotated_left().rotated_right(), rect, 1.0 / 1_048_576.0);
        let round = right.rotated_right().rotated_right().rotated_right();
        assert_near(round, rect, 1.0 / 524_288.0);
    }
}

#[test]
fn a_turn_and_its_opposite_give_the_document_back() {
    for delta in [-128_i8, -3, -1, 1, 2, 5, 127] {
        let mut document = document();
        document.rotate_by(3).unwrap();
        document.commit_crop(CropRect::full(), crop(0.1, 0.2, 0.35, 0.6)).unwrap();
        let start = document.crop_rect();
        document.rotate_by(delta).unwrap();
        document.rotate_by(delta.checked_neg().unwrap_or(0)).unwrap();
        assert_eq!(document.rotation_quarter_turns(), 3);
        assert_near(document.crop_rect(), start, 1.0 / 524_288.0);
        for _ in 0..4 {
            document.rotate_by(-1).unwrap();
        }
        assert_eq!(document.rotation_quarter_turns(), 3);
        assert_near(document.crop_rect(), start, 1.0 / 524_288.0);
    }
}

#[test]
fn channels_of_a_colour_are_held_in_range() {
    assert_eq!(FrameColor::from_channels(-1, 256, 17), FrameColor { r: 0, g: 255, b: 17 });
    assert_eq!(FrameColor::from_channels(255, 0, i32::MAX), FrameColor { r: 255, g: 0, b: 255 });
    assert_eq!(FrameColor::from_channels(i32::MIN, 1, 254), FrameColor { r: 0, g: 1, b: 254 });
}
