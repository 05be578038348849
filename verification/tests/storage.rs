use focusless::document::curve::ToneCurve;
use focusless::document::operation::{DocumentError, Operation, PROJECT_SCHEMA_VERSION};
use focusless::document::project::ProjectDocument;
use focusless::document::values::{
    FrameColor, ShadowsHighlights, SourceFingerprint, SourceReference, WhiteBalance,
};
use focusless::number::scalar::Scalar;
use focusless::storage::fingerprint::{
    fingerprint_source, inspect_source, plan_samples, SamplePlan, SourceStatus, Stretch,
};
use focusless::storage::paths::{directory_of, temporary_path_for};
use focusless::storage::project_file::{
    load_project, project_parent, recovery_candidate, save_project, StorageError,
};

fn f(value: f32) -> Scalar {
    Scalar::from_bits(value.to_bits())
}

fn source(path: &str) -> SourceReference {
    SourceReference {
        path: String::from(path),
        fingerprint: SourceFingerprint {
            byte_len: 3,
            modified_unix_ms: None,
            sample_blake3: "hash".into(),
            width: 12,
            height: 8,
        },
    }
}

#[test]
fn version_one_project_is_upgraded_when_loaded() {
    let project_path = "/projects/legacy.focusless";
    let image_path = "/projects/image.jpg";
    let mut document = ProjectDocument::new(source(image_path));
    document.schema_version = 1;
    document.operations = vec![Operation::Exposure { ev: f(0.5) }];

    let restored = load_project(project_path, document).unwrap();
    assert_eq!(restored.schema_version, PROJECT_SCHEMA_VERSION);
    assert_eq!(restored.exposure_ev(), f(0.5));
    assert_eq!(restored.rotation_quarter_turns(), 0);
    assert!(restored.crop_rect().is_full());
}

#[test]
fn version_two_project_gets_an_identity_tone_curve_when_loaded() {
    let project_path = "/projects/version-two.focusless";
    let image_path = "/projects/image.jpg";
    let mut document = ProjectDocument::new(source(image_path));
    document.schema_version = 2;
    document
        .operations
        .retain(|operation| !matches!(operation, Operation::ToneCurve { .. }));

    let restored = load_project(project_path, document).unwrap();
    assert_eq!(restored.schema_version, PROJECT_SCHEMA_VERSION);
    assert_eq!(restored.tone_curve(), ToneCurve::identity());
}

#[test]
fn version_five_project_gets_identity_white_balance_in_render_order() {
    let project_path = "/projects/version-five.focusless";
    let image_path = "/projects/image.jpg";
    let mut document = ProjectDocument::new(source(image_path));
    document.schema_version = 5;
    document
        .operations
        .retain(|operation| !matches!(operation, Operation::WhiteBalance { .. }));

    let restored = load_project(project_path, document).unwrap();
    assert_eq!(restored.schema_version, PROJECT_SCHEMA_VERSION);
    assert_eq!(
        restored.white_balance(),
        WhiteBalance::identity()
    );
    let white_balance_index = restored
        .operations
        .iter()
        .position(|operation| matches!(operation, Operation::WhiteBalance { .. }))
        .unwrap();
    let exposure_index = restored
        .operations
        .iter()
        .position(|operation| matches!(operation, Operation::Exposure { .. }))
        .unwrap();
    assert!(white_balance_index < exposure_index);
}

#[test]
fn version_six_project_gets_neutral_saturation_after_tone_curve() {
    let project_path = "/projects/version-six.focusless";
    let image_path = "/projects/image.jpg";
    let mut document = ProjectDocument::new(source(image_path));
    document.schema_version = 6;
    document
        .operations
        .retain(|operation| !matches!(operation, Operation::Saturation { .. }));

    let restored = load_project(project_path, document).unwrap();
    assert_eq!(restored.schema_version, PROJECT_SCHEMA_VERSION);
    assert_eq!(restored.saturation(), f(0.0));
    let curve_index = restored
        .operations
        .iter()
        .position(|operation| matches!(operation, Operation::ToneCurve { .. }))
        .unwrap();
    let saturation_index = restored
        .operations
        .iter()
        .position(|operation| matches!(operation, Operation::Saturation { .. }))
        .unwrap();
    assert!(curve_index < saturation_index);
}

#[test]
fn version_seven_project_gets_disabled_sharpness_after_saturation() {
    let project_path = "/projects/version-seven.focusless";
    let image_path = "/projects/image.jpg";
    let mut document = ProjectDocument::new(source(image_path));
    document.schema_version = 7;
    document
        .operations
        .retain(|operation| !matches!(operation, Operation::Sharpness { .. }));

    let restored = load_project(project_path, document).unwrap();
    assert_eq!(restored.schema_version, PROJECT_SCHEMA_VERSION);
    assert_eq!(restored.sharpness(), f(0.0));
    let saturation_index = restored
        .operations
        .iter()
        .position(|operation| matches!(operation, Operation::Saturation { .. }))
        .unwrap();
    let sharpness_index = restored
        .operations
        .iter()
        .position(|operation| matches!(operation, Operation::Sharpness { .. }))
        .unwrap();
    assert!(saturation_index < sharpness_index);
}

#[test]
fn version_eight_project_gets_neutral_contrast_after_exposure() {
    let project_path = "/projects/version-eight.focusless";
    let image_path = "/projects/image.jpg";
    let mut document = ProjectDocument::new(source(image_path));
    document.schema_version = 8;
    document
        .operations
        .retain(|operation| !matches!(operation, Operation::Contrast { .. }));

    let restored = load_project(project_path, document).unwrap();
    assert_eq!(restored.schema_version, PROJECT_SCHEMA_VERSION);
    assert_eq!(restored.contrast(), f(0.0));
    let exposure_index = restored
        .operations
        .iter()
        .position(|operation| matches!(operation, Operation::Exposure { .. }))
        .unwrap();
    let contrast_index = restored
        .operations
        .iter()
        .position(|operation| matches!(operation, Operation::Contrast { .. }))
        .unwrap();
    assert!(exposure_index < contrast_index);
}

#[test]
fn version_nine_project_gets_neutral_frame_at_end() {
    let project_path = "/projects/version-nine.focusless";
    let image_path = "/projects/image.jpg";
    let mut document = ProjectDocument::new(source(image_path));
    document.schema_version = 9;
    document
        .operations
        .retain(|operation| !matches!(operation, Operation::Frame { .. }));

    let restored = load_project(project_path, document).unwrap();
    assert_eq!(restored.schema_version, PROJECT_SCHEMA_VERSION);
    let (frame_width_pct, frame_color) = restored.frame();
    assert_eq!(frame_width_pct, f(0.0));
    assert_eq!(frame_color, FrameColor::white());
    let sharpness_index = restored
        .operations
        .iter()
        .position(|operation| matches!(operation, Operation::Sharpness { .. }))
        .unwrap();
    let frame_index = restored
        .operations
        .iter()
        .position(|operation| matches!(operation, Operation::Frame { .. }))
        .unwrap();
    assert!(sharpness_index < frame_index);
}

#[test]
fn version_ten_project_adopts_cat16_white_balance_semantics() {
    let project_path = "/projects/version-ten.focusless";
    let image_path = "/projects/image.jpg";
    let adjustment = WhiteBalance {
        temperature: f(37.0),
        tint: f(-12.0),
    };
    let mut document = ProjectDocument::new(source(image_path));
    document.schema_version = 10;
    document.preview_white_balance(adjustment).unwrap();

    let restored = load_project(project_path, document).unwrap();

    assert_eq!(restored.schema_version, PROJECT_SCHEMA_VERSION);
    assert_eq!(restored.white_balance(), adjustment);
}

#[test]
fn version_eleven_project_gets_neutral_straighten_after_rotation() {
    let project_path = "/projects/version-eleven.focusless";
    let image_path = "/projects/image.jpg";
    let mut document = ProjectDocument::new(source(image_path));
    document.schema_version = 11;
    document
        .operations
        .retain(|operation| !matches!(operation, Operation::Straighten { .. }));

    let restored = load_project(project_path, document).unwrap();

    assert_eq!(restored.schema_version, PROJECT_SCHEMA_VERSION);
    assert_eq!(restored.straighten_degrees(), f(0.0));
    let rotate_index = restored
        .operations
        .iter()
        .position(|operation| matches!(operation, Operation::Rotate { .. }))
        .unwrap();
    let straighten_index = restored
        .operations
        .iter()
        .position(|operation| matches!(operation, Operation::Straighten { .. }))
        .unwrap();
    assert_eq!(straighten_index, rotate_index + 1);
}

#[test]
fn version_fourteen_project_preserves_shadows_highlights_appearance() {
    let project_path = "/projects/version-fourteen.focusless";
    let image_path = "/projects/image.jpg";
    let mut document = ProjectDocument::new(source(image_path));
    document.schema_version = 14;
    document
        .commit_shadows_highlights(
            ShadowsHighlights::identity(),
            ShadowsHighlights {
                shadows: f(25.0),
                highlights: f(40.0),
            },
        )
        .unwrap();

    let mut restored = load_project(project_path, document).unwrap();

    assert_eq!(restored.schema_version, PROJECT_SCHEMA_VERSION);
    assert_eq!(
        restored.shadows_highlights(),
        ShadowsHighlights {
            shadows: f(-25.0),
            highlights: f(-40.0),
        }
    );
    assert!(restored.undo());
    assert_eq!(
        restored.shadows_highlights(),
        ShadowsHighlights::identity()
    );
    assert!(restored.redo());
    assert_eq!(
        restored.shadows_highlights(),
        ShadowsHighlights {
            shadows: f(-25.0),
            highlights: f(-40.0),
        }
    );
}

#[test]
fn a_saved_project_names_its_photo_relative_and_finds_it_again() {
    let mut document = ProjectDocument::new(source("/photos/trip/image.jpg"));
    document.view.zoom = f(2.0);
    let save = save_project("/photos/trip/edit.focusless", &document).unwrap();
    assert_eq!(save.directory, "/photos/trip");
    assert_eq!(save.temporary_path, "/photos/trip/edit.focusless.tmp");
    assert_eq!(save.document.source.path, "image.jpg");

    let restored = load_project("/photos/trip/edit.focusless", save.document).unwrap();
    assert_eq!(restored.source.path, "/photos/trip/image.jpg");
    assert_eq!(restored.view.zoom, f(2.0));
    assert_eq!(restored.operations, document.operations);
}

#[test]
fn a_photo_elsewhere_is_named_by_the_way_to_it() {
    let document = ProjectDocument::new(source("/photos/image.jpg"));
    let save = save_project("/projects/edit.focusless", &document).unwrap();
    assert_eq!(save.document.source.path, "../photos/image.jpg");
    let restored = load_project("/projects/edit.focusless", save.document).unwrap();
    assert_eq!(restored.source.path, "/projects/../photos/image.jpg");
}

#[test]
fn a_relative_photo_stays_relative_when_saved() {
    let document = ProjectDocument::new(source("image.jpg"));
    let save = save_project("/projects/edit.focusless", &document).unwrap();
    assert_eq!(save.document.source.path, "image.jpg");
}

#[test]
fn an_absolute_photo_stays_absolute_when_opened() {
    let document = ProjectDocument::new(source("/photos/image.jpg"));
    let restored = load_project("edit.focusless", document).unwrap();
    assert_eq!(restored.source.path, "/photos/image.jpg");
}

#[test]
fn saving_brings_a_project_up_to_date() {
    let mut document = ProjectDocument::new(source("/photos/image.jpg"));
    document.schema_version = 14;
    document
        .preview_shadows_highlights(ShadowsHighlights { shadows: f(25.0), highlights: f(40.0) })
        .unwrap();
    let save = save_project("/photos/edit.focusless", &document).unwrap();
    assert_eq!(save.document.schema_version, PROJECT_SCHEMA_VERSION);
    assert_eq!(save.document.shadows_highlights().shadows, f(-25.0));
    let again = save_project("/photos/edit.focusless", &save.document).unwrap();
    assert_eq!(again.document.shadows_highlights().shadows, f(-25.0));
}

#[test]
fn a_project_without_a_directory_is_refused() {
    let document = ProjectDocument::new(source("/photos/image.jpg"));
    let error = save_project("edit.focusless", &document).unwrap_err();
    assert_eq!(error, StorageError::MissingParent("edit.focusless".into()));
    assert_eq!(error.message(), "project has no parent directory: edit.focusless");
    assert_eq!(project_parent("/a/b.focusless").unwrap(), "/a");
    assert_eq!(directory_of("/"), None);
    let relative = ProjectDocument::new(source("image.jpg"));
    assert_eq!(
        load_project("edit.focusless", relative).unwrap_err(),
        StorageError::MissingParent("edit.focusless".into())
    );
}

#[test]
fn a_project_of_a_newer_form_is_refused() {
    let mut document = ProjectDocument::new(source("/photos/image.jpg"));
    document.schema_version = PROJECT_SCHEMA_VERSION + 1;
    let error = load_project("/photos/edit.focusless", document).unwrap_err();
    assert_eq!(error, StorageError::UnsupportedSchema { found: 19, supported: 18 });
    assert_eq!(error.message(), "project schema 19 is newer than supported schema 18");
}

#[test]
fn a_project_out_of_range_is_refused() {
    let mut document = ProjectDocument::new(source("/photos/image.jpg"));
    document.operations.push(Operation::Exposure { ev: f(9.0) });
    let error = load_project("/photos/edit.focusless", document.duplicate()).unwrap_err();
    assert_eq!(error, StorageError::InvalidDocument(DocumentError::InvalidExposure));
    assert_eq!(
        error.message(),
        format!("project document is invalid: {}", DocumentError::InvalidExposure.message())
    );
    assert_eq!(
        save_project("/photos/edit.focusless", &document).unwrap_err(),
        StorageError::InvalidDocument(DocumentError::InvalidExposure)
    );
}

#[test]
fn errors_of_the_disk_and_of_the_form_have_words() {
    let io = StorageError::Io { path: "/a".into(), source: "denied".into() };
    assert_eq!(io.message(), "I/O error at /a: denied");
    assert_eq!(
        StorageError::Json("eof".into()).message(),
        "project JSON is invalid: eof"
    );
}

#[test]
fn failed_temp_file_is_discoverable_without_replacing_project() {
    let project_path = "/projects/edit.focusless";
    let temp_path = temporary_path_for(project_path);

    assert_eq!(recovery_candidate(project_path, true), Some(temp_path));
    assert_eq!(recovery_candidate(project_path, false), None);
}

#[test]
fn sampled_fingerprint_changes_with_content() {
    let before = fingerprint_source(3, &b"abc".to_vec(), &Vec::new(), None, 10, 20);
    let after = fingerprint_source(3, &b"abd".to_vec(), &Vec::new(), None, 10, 20);
    assert_ne!(before.sample_blake3, after.sample_blake3);
}

#[test]
fn a_fingerprint_hashes_the_length_and_both_samples() {
    let mut bytes = 200_000_u64.to_le_bytes().to_vec();
    bytes.extend_from_slice(b"start");
    bytes.extend_from_slice(b"end");
    let fingerprint = fingerprint_source(
        200_000,
        &b"start".to_vec(),
        &b"end".to_vec(),
        Some(7),
        640,
        480,
    );
    assert_eq!(fingerprint.sample_blake3, blake3::hash(&bytes).to_hex().to_string());
    assert_eq!(fingerprint.byte_len, 200_000);
    assert_eq!(fingerprint.modified_unix_ms, Some(7));
    assert_eq!((fingerprint.width, fingerprint.height), (640, 480));
}

#[test]
fn long_files_are_sampled_at_both_ends() {
    assert_eq!(
        plan_samples(10),
        SamplePlan { first: Stretch { offset: 0, length: 10 }, last: None }
    );
    assert_eq!(
        plan_samples(65_536),
        SamplePlan { first: Stretch { offset: 0, length: 65_536 }, last: None }
    );
    assert_eq!(
        plan_samples(65_537),
        SamplePlan {
            first: Stretch { offset: 0, length: 65_536 },
            last: Some(Stretch { offset: 1, length: 65_536 }),
        }
    );
}

#[test]
fn a_source_is_current_changed_or_missing() {
    let source = source("/photos/image.jpg");
    let same = source.fingerprint.duplicate();
    assert_eq!(inspect_source(&source, Some(same)), SourceStatus::Current);
    assert_eq!(inspect_source(&source, None), SourceStatus::Missing);
    let mut other = source.fingerprint.duplicate();
    other.byte_len = 4;
    assert_eq!(
        inspect_source(&source, Some(other.duplicate())),
        SourceStatus::Changed { expected: source.fingerprint.duplicate(), actual: other }
    );
}

#[test]
fn a_hash_is_written_in_lower_case_digits() {
    for bytes in [Vec::new(), b"abc".to_vec(), vec![0xff; 300]] {
        let fingerprint = fingerprint_source(300, &bytes, &Vec::new(), None, 1, 1);
        let digits = fingerprint.sample_blake3;
        assert_eq!(digits.len(), 64);
        assert!(digits.bytes().all(|digit| matches!(digit, b'0'..=b'9' | b'a'..=b'f')));
    }
}

#[test]
fn photos_with_any_name_are_found_again() {
    let names = [
        "Shot 12:30:05.png",
        "a:b.png",
        "1:2.png",
        ":x.png",
        "\\odd\\name.png",
        "C:\\photo.png",
        "trip/day 1/a:b/12:30.png",
        "./image.jpg",
        "one//two.jpg",
        "üñí:ç.jpg",
    ];
    for directory in ["/photos", "/photos:/a:b", "/photos/../x", "/"] {
        let project = if directory == "/" {
            String::from("/edit.focusless")
        } else {
            format!("{directory}/edit.focusless")
        };
        for name in names {
            let path = std::path::Path::new(directory).join(name);
            let mut document = ProjectDocument::new(source(path.to_str().unwrap()));
            document.view.zoom = f(2.0);
            let save = save_project(&project, &document).unwrap();
            assert_eq!(save.directory, directory);
            assert!(!save.document.source.path.starts_with('/'));
            let restored = load_project(&project, save.document).unwrap();
            assert_eq!(std::path::Path::new(&restored.source.path), path);
            assert_eq!(restored.source.fingerprint, document.source.fingerprint);
            assert_eq!(restored.operations, document.operations);
            assert_eq!(restored.view.zoom, f(2.0));
        }
    }
}

#[test]
fn unfinished_files_lie_beside_projects_with_any_name() {
    for name in ["12:30.focusless", "a:b.focusless", "a\\b.focusless", "x", "..x"] {
        let path = format!("/photos/{name}");
        assert_eq!(temporary_path_for(&path), format!("/photos/{name}.tmp"));
        assert_eq!(directory_of(&temporary_path_for(&path)), Some("/photos".to_string()));
    }
    assert_eq!(temporary_path_for("edit.focusless"), "edit.focusless.tmp");
}
