use focusless::document::curve::ToneCurve;
use focusless::document::history::{Command, MAX_HISTORY_LEN};
use focusless::document::operation::{DocumentError, Operation, PROJECT_SCHEMA_VERSION};
use focusless::document::project::ProjectDocument;
use focusless::document::values::{
    CropRect, FrameColor, ShadowsHighlights, SourceFingerprint, SourceReference, WhiteBalance,
};
use focusless::number::scalar::Scalar;
use focusless::number::wide::Wide;
use focusless::render::geometry::Angle;

fn f(value: f32) -> Scalar {
    Scalar::from_bits(value.to_bits())
}

fn plain(value: Scalar) -> f32 {
    f32::from_bits(value.to_bits())
}

/// The sine and the cosine of the straightening of a document.
fn angle(document: &ProjectDocument) -> Angle {
    let radians = f64::from(plain(document.straighten_degrees())).abs().to_radians();
    Angle {
        sine: Wide::from_bits(radians.sin().abs().to_bits()),
        cosine: Wide::from_bits(radians.cos().abs().to_bits()),
    }
}

fn document() -> ProjectDocument {
    ProjectDocument::new(SourceReference {
        path: String::from("/photos/example.jpg"),
        fingerprint: SourceFingerprint {
            byte_len: 42,
            modified_unix_ms: Some(10),
            sample_blake3: "abc".into(),
            width: 100,
            height: 50,
        },
    })
}

#[test]
fn exposure_transaction_is_undoable_and_redoable() {
    let mut document = document();
    document.preview_exposure(f(0.8)).unwrap();
    document.commit_exposure(f(0.0), f(0.8)).unwrap();

    assert_eq!(document.exposure_ev(), f(0.8));
    assert!(document.undo());
    assert_eq!(document.exposure_ev(), f(0.0));
    assert!(document.redo());
    assert_eq!(document.exposure_ev(), f(0.8));
}

#[test]
fn contrast_transaction_is_undoable_and_redoable() {
    let mut document = document();
    document.preview_contrast(f(35.0)).unwrap();
    document.commit_contrast(f(0.0), f(35.0)).unwrap();

    assert_eq!(document.contrast(), f(35.0));
    assert!(document.undo());
    assert_eq!(document.contrast(), f(0.0));
    assert!(document.redo());
    assert_eq!(document.contrast(), f(35.0));
}

#[test]
fn white_balance_transaction_is_undoable_and_redoable() {
    let mut document = document();
    let adjusted = WhiteBalance {
        temperature: f(42.0),
        tint: f(-17.0),
    };
    document.preview_white_balance(adjusted).unwrap();
    document
        .commit_white_balance(WhiteBalance::identity(), adjusted)
        .unwrap();

    assert_eq!(document.white_balance(), adjusted);
    assert!(document.undo());
    assert_eq!(document.white_balance(), WhiteBalance::identity());
    assert!(document.redo());
    assert_eq!(document.white_balance(), adjusted);
}

#[test]
fn saturation_transaction_is_undoable_and_redoable() {
    let mut document = document();
    document.preview_saturation(f(35.0)).unwrap();
    document.commit_saturation(f(0.0), f(35.0)).unwrap();

    assert_eq!(document.saturation(), f(35.0));
    assert!(document.undo());
    assert_eq!(document.saturation(), f(0.0));
    assert!(document.redo());
    assert_eq!(document.saturation(), f(35.0));
}

#[test]
fn sharpness_transaction_is_undoable_and_redoable() {
    let mut document = document();
    document.preview_sharpness(f(240.0)).unwrap();
    document.commit_sharpness(f(0.0), f(240.0)).unwrap();

    assert_eq!(document.sharpness(), f(240.0));
    assert!(document.undo());
    assert_eq!(document.sharpness(), f(0.0));
    assert!(document.redo());
    assert_eq!(document.sharpness(), f(240.0));
}

#[test]
fn new_edit_clears_redo_history() {
    let mut document = document();
    document.commit_exposure(f(0.0), f(1.0)).unwrap();
    assert!(document.undo());
    document.commit_exposure(f(0.0), f(-1.0)).unwrap();
    assert!(!document.history.can_redo());
}

#[test]
fn history_is_bounded() {
    let mut document = document();
    for index in 0..(MAX_HISTORY_LEN + 20) {
        let before = document.exposure_ev();
        let after = f(((index % 80) as f32 / 10.0) - 4.0);
        document.commit_exposure(before, after).unwrap();
    }
    assert_eq!(document.history.undo_len(), MAX_HISTORY_LEN);
    for _ in 0..MAX_HISTORY_LEN {
        assert!(document.undo());
    }
    assert!(!document.undo());
    assert_eq!(document.history.redo_len(), MAX_HISTORY_LEN);
}

#[test]
fn schema_v15_migrates_to_the_bounded_history_window() {
    let mut document = document();
    document.schema_version = 15;
    document.history.undo = (0..30)
        .map(|index| Command::SetExposure {
            before: f(index as f32),
            after: f(index as f32 + 1.0),
        })
        .collect();
    document.history.redo = (0..10)
        .map(|index| Command::SetExposure {
            before: f(index as f32),
            after: f(index as f32 + 1.0),
        })
        .collect();

    document.upgrade_to_latest().unwrap();

    assert_eq!(document.schema_version, PROJECT_SCHEMA_VERSION);
    assert_eq!(
        document.history.undo_len() + document.history.redo_len(),
        MAX_HISTORY_LEN
    );
    assert_eq!(document.history.undo_len(), 10);
    assert_eq!(document.history.redo_len(), 10);
    assert!(matches!(
        document.history.undo.front(),
        Some(Command::SetExposure { before, .. }) if *before == f(20.0)
    ));
}

#[test]
fn rejects_invalid_exposure() {
    let mut document = document();
    assert_eq!(
        document.preview_exposure(f(f32::NAN)),
        Err(DocumentError::InvalidExposure)
    );
    assert_eq!(
        document.preview_exposure(f(5.1)),
        Err(DocumentError::InvalidExposure)
    );
}

#[test]
fn rejects_invalid_contrast() {
    let mut document = document();
    assert_eq!(
        document.preview_contrast(f(f32::NAN)),
        Err(DocumentError::InvalidContrast)
    );
    assert_eq!(
        document.preview_contrast(f(100.1)),
        Err(DocumentError::InvalidContrast)
    );
}

#[test]
fn rejects_invalid_white_balance() {
    let mut document = document();
    assert_eq!(
        document.preview_white_balance(WhiteBalance {
            temperature: f(f32::NAN),
            tint: f(0.0),
        }),
        Err(DocumentError::InvalidWhiteBalance)
    );
    assert_eq!(
        document.preview_white_balance(WhiteBalance {
            temperature: f(0.0),
            tint: f(100.1),
        }),
        Err(DocumentError::InvalidWhiteBalance)
    );
}

#[test]
fn rejects_invalid_saturation() {
    let mut document = document();
    assert_eq!(
        document.preview_saturation(f(f32::NAN)),
        Err(DocumentError::InvalidSaturation)
    );
    assert_eq!(
        document.preview_saturation(f(-100.1)),
        Err(DocumentError::InvalidSaturation)
    );
}

#[test]
fn rejects_invalid_sharpness() {
    let mut document = document();
    assert_eq!(
        document.preview_sharpness(f(f32::NAN)),
        Err(DocumentError::InvalidSharpness)
    );
    assert_eq!(
        document.preview_sharpness(f(-0.1)),
        Err(DocumentError::InvalidSharpness)
    );
    assert_eq!(
        document.preview_sharpness(f(1000.1)),
        Err(DocumentError::InvalidSharpness)
    );
}

#[test]
fn vignette_transaction_is_undoable_and_redoable() {
    let mut document = document();
    document.preview_vignette(f(0.7)).unwrap();
    document.commit_vignette(f(0.0), f(0.7)).unwrap();

    assert_eq!(document.vignette(), f(0.7));
    assert!(document.undo());
    assert_eq!(document.vignette(), f(0.0));
    assert!(document.redo());
    assert_eq!(document.vignette(), f(0.7));
}

#[test]
fn rejects_invalid_vignette() {
    let mut document = document();
    assert_eq!(
        document.preview_vignette(f(f32::NAN)),
        Err(DocumentError::InvalidVignette)
    );
    assert_eq!(
        document.preview_vignette(f(-0.1)),
        Err(DocumentError::InvalidVignette)
    );
    assert_eq!(
        document.preview_vignette(f(1.1)),
        Err(DocumentError::InvalidVignette)
    );
}

#[test]
fn schema_v17_migrates_with_neutral_vignette_in_render_order() {
    let mut document = document();
    document.schema_version = 17;
    document
        .operations
        .retain(|operation| !matches!(operation, Operation::Vignette { .. }));

    document.upgrade_to_latest().unwrap();

    assert_eq!(document.schema_version, PROJECT_SCHEMA_VERSION);
    assert_eq!(document.vignette(), f(0.0));
    let saturation_index = document
        .operations
        .iter()
        .rposition(|operation| matches!(operation, Operation::Saturation { .. }))
        .unwrap();
    let vignette_index = document
        .operations
        .iter()
        .position(|operation| matches!(operation, Operation::Vignette { .. }))
        .unwrap();
    let sharpness_index = document
        .operations
        .iter()
        .position(|operation| matches!(operation, Operation::Sharpness { .. }))
        .unwrap();
    assert!(saturation_index < vignette_index && vignette_index < sharpness_index);
}

#[test]
fn crop_and_rotation_are_undoable() {
    let mut document = document();
    let crop = CropRect {
        x: f(0.1),
        y: f(0.2),
        width: f(0.6),
        height: f(0.5),
    };
    document.commit_crop(CropRect::full(), crop).unwrap();
    document.rotate_by(1).unwrap();

    assert_eq!(document.rotation_quarter_turns(), 1);
    assert_eq!(document.crop_rect(), crop.rotated_right());
    assert_eq!(document.output_dimensions(100, 50, angle(&document)), (25, 60));

    assert!(document.undo());
    assert_eq!(document.rotation_quarter_turns(), 0);
    assert_eq!(document.crop_rect(), crop);
    assert!(document.undo());
    assert_eq!(document.crop_rect(), CropRect::full());
    assert!(document.redo());
    assert_eq!(document.crop_rect(), crop);
}

#[test]
fn rejects_invalid_crop_and_rotation() {
    let mut document = document();
    assert_eq!(
        document.preview_crop(CropRect {
            x: f(0.9),
            y: f(0.0),
            width: f(0.2),
            height: f(1.0),
        }),
        Err(DocumentError::InvalidCrop)
    );
    assert_eq!(
        document.preview_rotation(4),
        Err(DocumentError::InvalidRotation)
    );
}

#[test]
fn tone_curve_is_shape_preserving_and_undoable() {
    let mut document = document();
    let curve = ToneCurve {
        shadow_input: f(0.2),
        shadows: f(0.12),
        midtone_input: f(0.55),
        midtones: f(0.42),
        highlight_input: f(0.82),
        highlights: f(0.88),
    };
    document
        .commit_tone_curve(ToneCurve::identity(), curve)
        .unwrap();
    assert_eq!(document.tone_curve(), curve);
    assert_eq!(curve.sample(f(0.2)), f(0.12));
    assert_eq!(curve.sample(f(0.55)), f(0.42));
    assert_eq!(curve.sample(f(0.82)), f(0.88));
    let mut previous = 0.0;
    for index in 1..=1000 {
        let value = plain(curve.sample(f(index as f32 / 1000.0)));
        assert!(value >= previous);
        previous = value;
    }
    assert!(document.undo());
    assert_eq!(document.tone_curve(), ToneCurve::identity());
    assert!(document.redo());
    assert_eq!(document.tone_curve(), curve);
}

#[test]
fn tone_curve_points_can_cross_without_segment_overshoot() {
    let curve = ToneCurve {
        shadow_input: f(0.15),
        shadows: f(0.9),
        midtone_input: f(0.45),
        midtones: f(0.1),
        highlight_input: f(0.9),
        highlights: f(0.8),
    };
    for index in 0..=1000 {
        let value = plain(curve.sample(f(index as f32 / 1000.0)));
        assert!((0.0..=1.0).contains(&value));
    }
}

#[test]
fn rejects_invalid_tone_curve() {
    let mut document = document();
    assert_eq!(
        document.preview_tone_curve(ToneCurve {
            shadow_input: f(0.25),
            shadows: f(1.1),
            midtone_input: f(0.5),
            midtones: f(0.5),
            highlight_input: f(0.75),
            highlights: f(0.8),
        }),
        Err(DocumentError::InvalidToneCurve)
    );
    assert_eq!(
        document.preview_tone_curve(ToneCurve {
            shadow_input: f(0.6),
            shadows: f(0.2),
            midtone_input: f(0.5),
            midtones: f(0.5),
            highlight_input: f(0.75),
            highlights: f(0.8),
        }),
        Err(DocumentError::InvalidToneCurve)
    );
}

#[test]
fn frame_transaction_is_undoable_and_redoable() {
    let mut document = document();
    let color = FrameColor {
        r: 30,
        g: 30,
        b: 30,
    };
    document.preview_frame(f(10.0), color).unwrap();
    document
        .commit_frame(f(0.0), FrameColor::white(), f(10.0), color)
        .unwrap();
    assert_eq!(document.frame(), (f(10.0), color));
    assert!(document.undo());
    assert_eq!(document.frame(), (f(0.0), FrameColor::white()));
    assert!(document.redo());
    assert_eq!(document.frame(), (f(10.0), color));
}

#[test]
fn rejects_invalid_frame() {
    let mut document = document();
    assert_eq!(
        document.preview_frame(f(f32::NAN), FrameColor::white()),
        Err(DocumentError::InvalidFrame)
    );
    assert_eq!(
        document.preview_frame(f(50.1), FrameColor::white()),
        Err(DocumentError::InvalidFrame)
    );
    assert_eq!(
        document.preview_frame(f(-0.1), FrameColor::white()),
        Err(DocumentError::InvalidFrame)
    );
}

#[test]
fn schema_v9_migrates_with_neutral_frame() {
    let mut document = document();
    document.schema_version = 9;
    // Remove the Frame operation to simulate a v9 project.
    document
        .operations
        .retain(|op| !matches!(op, Operation::Frame { .. }));
    document.upgrade_to_latest().unwrap();
    assert_eq!(document.schema_version, PROJECT_SCHEMA_VERSION);
    let (width_pct, color) = document.frame();
    assert_eq!(width_pct, f(0.0));
    assert_eq!(color, FrameColor::white());
}

#[test]
fn schema_v10_migrates_to_cat16_semantics_without_changing_parameters() {
    let mut document = document();
    let adjustment = WhiteBalance {
        temperature: f(37.0),
        tint: f(-12.0),
    };
    document.schema_version = 10;
    document.preview_white_balance(adjustment).unwrap();

    document.upgrade_to_latest().unwrap();

    assert_eq!(document.schema_version, PROJECT_SCHEMA_VERSION);
    assert_eq!(document.white_balance(), adjustment);
}

#[test]
fn schema_v11_migrates_with_neutral_straighten() {
    let mut document = document();
    document.schema_version = 11;
    document
        .operations
        .retain(|operation| !matches!(operation, Operation::Straighten { .. }));

    document.upgrade_to_latest().unwrap();

    assert_eq!(document.schema_version, PROJECT_SCHEMA_VERSION);
    assert_eq!(document.straighten_degrees(), f(0.0));
    let rotate_index = document
        .operations
        .iter()
        .position(|operation| matches!(operation, Operation::Rotate { .. }))
        .unwrap();
    let straighten_index = document
        .operations
        .iter()
        .position(|operation| matches!(operation, Operation::Straighten { .. }))
        .unwrap();
    let crop_index = document
        .operations
        .iter()
        .position(|operation| matches!(operation, Operation::Crop { .. }))
        .unwrap();
    assert!(rotate_index < straighten_index && straighten_index < crop_index);
}

#[test]
fn schema_v13_migrates_with_neutral_shadows_highlights_in_render_order() {
    let mut document = document();
    document.schema_version = 13;
    document
        .operations
        .retain(|operation| !matches!(operation, Operation::ShadowsHighlights { .. }));

    document.upgrade_to_latest().unwrap();

    assert_eq!(document.schema_version, PROJECT_SCHEMA_VERSION);
    assert_eq!(document.shadows_highlights(), ShadowsHighlights::identity());
    let exposure_index = document
        .operations
        .iter()
        .position(|operation| matches!(operation, Operation::Exposure { .. }))
        .unwrap();
    let adjustment_index = document
        .operations
        .iter()
        .position(|operation| matches!(operation, Operation::ShadowsHighlights { .. }))
        .unwrap();
    let contrast_index = document
        .operations
        .iter()
        .position(|operation| matches!(operation, Operation::Contrast { .. }))
        .unwrap();
    assert!(exposure_index < adjustment_index && adjustment_index < contrast_index);
}

#[test]
fn schema_v14_migrates_shadows_and_highlights_directions() {
    let mut document = document();
    document.schema_version = 14;
    document
        .commit_shadows_highlights(
            ShadowsHighlights::identity(),
            ShadowsHighlights {
                shadows: f(25.0),
                highlights: f(40.0),
            },
        )
        .unwrap();

    document.upgrade_to_latest().unwrap();

    assert_eq!(document.schema_version, PROJECT_SCHEMA_VERSION);
    assert_eq!(
        document.shadows_highlights(),
        ShadowsHighlights {
            shadows: f(-25.0),
            highlights: f(-40.0),
        }
    );
    assert!(document.undo());
    assert_eq!(document.shadows_highlights(), ShadowsHighlights::identity());
    assert!(document.redo());
    assert_eq!(
        document.shadows_highlights(),
        ShadowsHighlights {
            shadows: f(-25.0),
            highlights: f(-40.0),
        }
    );
}

#[test]
fn straighten_and_restore_original_are_undoable() {
    let mut document = document();
    document.preview_exposure(f(1.0)).unwrap();
    document.commit_exposure(f(0.0), f(1.0)).unwrap();
    document.preview_straighten(f(12.5)).unwrap();
    document.commit_straighten(f(0.0), f(12.5)).unwrap();
    let straightened = document.output_dimensions(100, 50, angle(&document));
    assert!(straightened.0 < 100 && straightened.1 < 50);

    document.restore_original();
    assert_eq!(document.exposure_ev(), f(0.0));
    assert_eq!(document.straighten_degrees(), f(0.0));
    assert!(document.undo());
    assert_eq!(document.exposure_ev(), f(1.0));
    assert_eq!(document.straighten_degrees(), f(12.5));
    assert!(document.redo());
    assert_eq!(document.exposure_ev(), f(0.0));
    assert_eq!(document.straighten_degrees(), f(0.0));
}

#[test]
fn rejects_invalid_straighten() {
    let mut document = document();
    assert_eq!(
        document.preview_straighten(f(f32::NAN)),
        Err(DocumentError::InvalidStraighten)
    );
    assert_eq!(
        document.preview_straighten(f(45.1)),
        Err(DocumentError::InvalidStraighten)
    );
    assert_eq!(
        document.preview_straighten(f(-45.1)),
        Err(DocumentError::InvalidStraighten)
    );
}
