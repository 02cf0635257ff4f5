use lumia_viewer::editing::{
    annotation_export_name, default_export_name, discard_texts, edit_session_has_changes,
    editing_unavailable_reason, parse_u32, ResizeInput, linked_dimension,
    valid_output_dimensions, CropAspect, CropRect, EditMode, EditSession,
};
use lumia_viewer::persistence::Language;

#[test]
fn linked_dimensions_round_and_never_reach_zero() {
    assert_eq!(linked_dimension(1000, 1920, 1080), 563);
    assert_eq!(linked_dimension(1, 10_000, 1), 1);
}

#[test]
fn linked_dimension_treats_zero_source_axis_as_one() {
    assert_eq!(linked_dimension(7, 0, 3), 21);
    assert_eq!(linked_dimension(u32::MAX, 1, u32::MAX), u32::MAX);
}

#[test]
fn image_coordinate_mapping_preserves_center() {
    let source_width = 1000.0_f64;
    let display_width = 500.0_f64;
    let pointer = 250.0_f64;
    let mapped = pointer / display_width * source_width;
    assert_eq!(mapped, 500.0);
}

#[test]
fn marker_export_names_are_non_destructive() {
    assert_eq!(annotation_export_name("/tmp/photo.jpg"), "photo-annotated.png");
}

#[test]
fn annotation_export_name_falls_back_to_image() {
    assert_eq!(annotation_export_name("/"), "image-annotated.png");
}

#[test]
fn export_names_describe_the_operation() {
    assert_eq!(default_export_name("/tmp/photo.jpg", EditMode::Crop, "jpg"), "photo-cropped.jpg");
    assert_eq!(default_export_name("photo.tiff", EditMode::Resize, "png"), "photo-resized.png");
}

fn session() -> EditSession {
    EditSession::default()
}

#[test]
fn moved_crop_selection_has_changes() {
    let state = EditSession {
        mode: Some(EditMode::Crop),
        source_width: 100,
        source_height: 80,
        crop_rect: CropRect::new(5, 5, 90, 70),
        ..session()
    };
    assert!(edit_session_has_changes(&state));
}

#[test]
fn crop_session_with_full_selection_has_no_changes() {
    let state = EditSession {
        mode: Some(EditMode::Crop),
        source_width: 100,
        source_height: 80,
        crop_rect: CropRect::new(0, 0, 100, 80),
        ..session()
    };
    assert!(!edit_session_has_changes(&state));
}

#[test]
fn changed_crop_aspect_has_changes() {
    let state = EditSession {
        mode: Some(EditMode::Crop),
        source_width: 100,
        source_height: 80,
        crop_aspect: CropAspect::Square,
        ..session()
    };
    assert!(edit_session_has_changes(&state));
}

#[test]
fn resize_session_at_original_size_has_no_changes() {
    let state = EditSession {
        mode: Some(EditMode::Resize),
        source_width: 100,
        source_height: 80,
        resize_width: 100,
        resize_height: 80,
        lock_aspect: true,
        ..session()
    };
    assert!(!edit_session_has_changes(&state));
}

#[test]
fn edited_resize_values_have_changes() {
    let state = EditSession {
        mode: Some(EditMode::Resize),
        source_width: 100,
        source_height: 80,
        resize_width: 50,
        resize_height: 40,
        lock_aspect: true,
        ..session()
    };
    assert!(edit_session_has_changes(&state));
}

#[test]
fn unlocked_aspect_has_changes() {
    let state = EditSession {
        mode: Some(EditMode::Resize),
        source_width: 100,
        source_height: 80,
        resize_width: 100,
        resize_height: 80,
        lock_aspect: false,
        ..session()
    };
    assert!(edit_session_has_changes(&state));
}

#[test]
fn no_session_has_no_changes() {
    assert!(!edit_session_has_changes(&EditSession::default()));
}

#[test]
fn output_dimensions_must_be_nonempty_and_fit_the_budget() {
    assert!(valid_output_dimensions(100, 100, 40_000));
    assert!(!valid_output_dimensions(100, 100, 39_999));
    assert!(!valid_output_dimensions(0, 100, u64::MAX));
    assert!(!valid_output_dimensions(u32::MAX, u32::MAX, u64::MAX));
}

#[test]
fn discard_prompt_is_written_in_the_interface_language() {
    assert_eq!(
        discard_texts(Language::English),
        ("Discard changes?", "This will discard your current crop or resize changes.", "Discard")
    );
    assert_eq!(discard_texts(Language::Chinese).2, "放弃修改");
}

fn resize_session(width: u32, height: u32) -> EditSession {
    EditSession {
        mode: Some(EditMode::Resize),
        source_width: width,
        source_height: height,
        crop_rect: CropRect::new(0, 0, width, height),
        crop_aspect: CropAspect::Free,
        resize_width: width,
        resize_height: height,
        lock_aspect: true,
    }
}

#[test]
fn numbers_are_read_as_str_parse_reads_them() {
    assert_eq!(parse_u32("1920"), Some(1920));
    assert_eq!(parse_u32("+7"), Some(7));
    assert_eq!(parse_u32("007"), Some(7));
    assert_eq!(parse_u32("4294967295"), Some(u32::MAX));
    assert_eq!(parse_u32("4294967296"), None);
    assert_eq!(parse_u32(""), None);
    assert_eq!(parse_u32("+"), None);
    assert_eq!(parse_u32("-1"), None);
    assert_eq!(parse_u32("12a"), None);
    assert_eq!(parse_u32(" 12"), None);
}

#[test]
fn locked_resize_fields_follow_each_other() {
    let mut session = resize_session(1920, 1080);
    assert_eq!(session.resize_input(true, "1000"), ResizeInput::Linked(563));
    assert_eq!((session.resize_width, session.resize_height), (1000, 563));
    assert_eq!(session.resize_input(false, "540"), ResizeInput::Linked(960));
    assert_eq!((session.resize_width, session.resize_height), (960, 540));
    assert_eq!(session.resize_input(true, "0"), ResizeInput::Ignored);
    assert_eq!(session.resize_input(true, "wide"), ResizeInput::Ignored);
    assert_eq!((session.resize_width, session.resize_height), (960, 540));
}

#[test]
fn unlocking_frees_the_fields_and_relocking_relinks_the_height() {
    let mut session = resize_session(1920, 1080);
    assert_eq!(session.toggle_aspect_lock(), None);
    assert_eq!(session.resize_input(true, "100"), ResizeInput::Changed);
    assert_eq!((session.resize_width, session.resize_height), (100, 1080));
    assert_eq!(session.toggle_aspect_lock(), Some(56));
    assert!(session.lock_aspect);
    session.reset_resize();
    assert_eq!(session, resize_session(1920, 1080));
}

#[test]
fn editing_is_unavailable_until_a_plain_image_is_shown_in_full() {
    let size = Some((100, 80));
    assert_eq!(editing_unavailable_reason(None, false, false, false, size, size), Some("no-image"));
    assert_eq!(editing_unavailable_reason(Some("/a/b.GIF"), false, false, false, size, size), Some("format"));
    assert_eq!(editing_unavailable_reason(Some("/a/b.psb"), false, false, false, size, size), Some("format"));
    assert_eq!(editing_unavailable_reason(Some("/a/b.dng"), true, false, false, size, size), Some("format"));
    assert_eq!(editing_unavailable_reason(Some("/a/b.png"), false, true, false, size, size), Some("large"));
    assert_eq!(editing_unavailable_reason(Some("/a/b.png"), false, false, true, size, size), Some("loading"));
    assert_eq!(editing_unavailable_reason(Some("/a/b.png"), false, false, false, size, None), Some("preview"));
    assert_eq!(
        editing_unavailable_reason(Some("/a/b.png"), false, false, false, size, Some((80, 100))),
        Some("preview")
    );
    assert_eq!(editing_unavailable_reason(Some("/a/b.png"), false, false, false, size, size), None);
}

#[test]
fn a_new_session_selects_everything_and_reset_restores_it() {
    let mut session = EditSession::start(EditMode::Crop, 640, 480);
    assert!(!edit_session_has_changes(&session));
    session.crop_rect = CropRect::new(10, 10, 100, 100);
    session.crop_aspect = CropAspect::Square;
    assert!(edit_session_has_changes(&session));
    session.reset_crop();
    assert_eq!(session, EditSession::start(EditMode::Crop, 640, 480));
}
