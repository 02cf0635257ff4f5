use lumia_viewer::association_formats::{desktop_entry, mime_selected, supported_selection};
use lumia_viewer::decode_route::{decode_route, DecodeRoute};
use lumia_viewer::preview_cache::ModifiedTime;
use lumia_viewer::professional_preview::{
    begin_cache_pruning, map_host_error, reported_dimensions, time_before, CachedFile, HostFailure,
    PluginErrorKind, ProfessionalDecodeError, PruneStep, decode_result_acceptable, decoded_preview_acceptable, media_type, png_signature_ok, preview_file_name,
};

const BUDGET: u64 = 512 * 1024 * 1024;

#[test]
fn tiling_policy_routes_large_images_except_excluded_formats() {
    assert_eq!(decode_route("/a/huge.tif", Some((60000, 60000)), true, false, BUDGET), DecodeRoute::LargeImage);
    assert_eq!(decode_route("/a/huge.PSD", Some((60000, 60000)), true, true, BUDGET), DecodeRoute::Photoshop);
    assert_eq!(decode_route("/a/small.png", Some((10, 10)), false, false, BUDGET), DecodeRoute::Static);
    assert_eq!(decode_route("/a/unknown.png", None, true, false, BUDGET), DecodeRoute::Static);
}

#[test]
fn gif_frames_over_the_animation_budget_are_tiled() {
    assert_eq!(decode_route("/a/anim.gif", Some((4096, 3072)), false, false, BUDGET), DecodeRoute::Gif);
    assert_eq!(decode_route("/a/anim.GIF", Some((4096, 3073)), false, false, BUDGET), DecodeRoute::LargeImage);
}

#[test]
fn heif_is_decoded_in_full_only_within_the_output_budget() {
    assert_eq!(
        decode_route("/a/photo.heic", Some((100, 100)), false, false, 40000),
        DecodeRoute::Heif { allow_full: true }
    );
    assert_eq!(
        decode_route("/a/photo.HEIF", Some((100, 101)), true, false, 40000),
        DecodeRoute::Heif { allow_full: false }
    );
    assert_eq!(decode_route("/a/photo.heic", None, false, false, 0), DecodeRoute::Heif { allow_full: true });
    assert_eq!(
        decode_route("/a/photo.heic", Some((u32::MAX, u32::MAX)), false, false, u64::MAX - 1),
        DecodeRoute::Heif { allow_full: false }
    );
}

#[test]
fn svg_is_rendered_from_its_path() {
    assert_eq!(decode_route("/a/logo.Svg", Some((10, 10)), false, false, BUDGET), DecodeRoute::Svg);
}

#[test]
fn plugin_previews_must_be_png_of_the_expected_size() {
    assert!(png_signature_ok(&[0x89, b'P', b'N', b'G', 0x0d, 0x0a, 0x1a, 0x0a, 0]));
    assert!(!png_signature_ok(&[0x89, b'P', b'N', b'G', 0x0d, 0x0a, 0x1a]));
    assert!(!png_signature_ok(b"GIF89a..."));
    assert!(decode_result_acceptable("/c/a.png", "/c/a.png", Some("image/png"), 4096, 1));
    assert!(!decode_result_acceptable("/c/a.png", "/c/b.png", Some("image/png"), 10, 10));
    assert!(!decode_result_acceptable("/c/a.png", "/c/a.png", Some("image/jpeg"), 10, 10));
    assert!(!decode_result_acceptable("/c/a.png", "/c/a.png", None, 10, 10));
    assert!(!decode_result_acceptable("/c/a.png", "/c/a.png", Some("image/png"), 4097, 10));
    assert!(decoded_preview_acceptable(300, 200, Some((300, 200))));
    assert!(!decoded_preview_acceptable(300, 200, Some((200, 300))));
    assert!(decoded_preview_acceptable(1, 4096, None));
    assert!(!decoded_preview_acceptable(0, 10, None));
}

#[test]
fn output_contract_rejects_wrong_path_format_and_dimensions() {
    assert!(!decode_result_acceptable("other.png", "expected.png", Some("image/jpeg"), 0, 4097));
}

#[test]
fn preview_names_and_media_types() {
    assert_eq!(preview_file_name(0xab), "00000000000000ab.png");
    assert_eq!(preview_file_name(u64::MAX), "ffffffffffffffff.png");
    assert_eq!(media_type(true), "image/x-camera-raw");
    assert_eq!(media_type(false), "image/vnd.adobe.photoshop");
}

#[test]
fn selections_keep_supported_extensions_in_order() {
    let selected = vec!["png".to_string(), "doc".to_string(), "jpg".to_string(), "JPG".to_string()];
    assert_eq!(supported_selection(&selected), vec!["png".to_string(), "jpg".to_string()]);
    assert!(mime_selected("image/jpeg", &vec!["jpeg".to_string()]));
    assert!(!mime_selected("image/jpeg", &vec!["png".to_string()]));
    assert!(!mime_selected("text/plain", &selected));
}

#[test]
fn desktop_entry_runs_lumia_on_one_file_and_claims_image_types() {
    let entry = desktop_entry("/opt/lumia/lumia");
    assert!(entry.starts_with("[Desktop Entry]\nType=Application\nName=Lumia\n"));
    assert!(entry.contains("\nExec=\"/opt/lumia/lumia\" %f\n"));
    assert!(entry.contains("image/jpeg;"));
    assert!(entry.contains("image/png;"));
    assert!(entry.ends_with(";\nNoDisplay=false\nStartupNotify=false\n"));
}

fn cached_file(after_epoch: bool, seconds: u64, bytes: u64, path: &str) -> CachedFile {
    CachedFile { modified: ModifiedTime { after_epoch, seconds, nanos: 0 }, bytes, path: path.to_string() }
}

#[test]
fn modification_times_order_before_epoch_first() {
    let before = ModifiedTime { after_epoch: false, seconds: 5, nanos: 0 };
    let longer_before = ModifiedTime { after_epoch: false, seconds: 9, nanos: 0 };
    let after = ModifiedTime { after_epoch: true, seconds: 1, nanos: 0 };
    let later = ModifiedTime { after_epoch: true, seconds: 1, nanos: 1 };
    assert!(time_before(longer_before, before));
    assert!(time_before(before, after));
    assert!(time_before(after, later));
    assert!(!time_before(later, later));
}

#[test]
fn pruning_removes_oldest_unprotected_files_until_within_budget() {
    let files = vec![
        cached_file(true, 30, 10, "/c/c.png"),
        cached_file(true, 10, 10, "/c/a.png"),
        cached_file(false, 5, 10, "/c/b.png"),
        cached_file(true, 10, 10, "/c/d.png"),
    ];
    let (mut pruning, ordered) = begin_cache_pruning(files, 25);
    let paths: Vec<&str> = ordered.iter().map(|f| f.path.as_str()).collect();
    assert_eq!(paths, vec!["/c/b.png", "/c/a.png", "/c/d.png", "/c/c.png"]);
    assert_eq!(pruning.total, 40);
    let protected = Some("/c/a.png");
    assert_eq!(pruning.step("/c/b.png", protected), PruneStep::Remove);
    pruning.removed(10);
    assert_eq!(pruning.step("/c/a.png", protected), PruneStep::Keep);
    assert_eq!(pruning.step("/c/d.png", protected), PruneStep::Remove);
    pruning.removed(10);
    assert_eq!(pruning.total, 20);
    assert_eq!(pruning.step("/c/c.png", protected), PruneStep::Done);
}

#[test]
fn pruning_totals_saturate() {
    let files = vec![cached_file(true, 1, u64::MAX, "/c/a.png"), cached_file(true, 2, 7, "/c/b.png")];
    let (mut pruning, _) = begin_cache_pruning(files, 0);
    assert_eq!(pruning.total, u64::MAX);
    pruning.removed(u64::MAX);
    pruning.removed(1);
    assert_eq!(pruning.total, 0);
    assert_eq!(pruning.step("/c/b.png", None), PruneStep::Done);
}

#[test]
fn plugin_failures_map_to_preview_errors() {
    assert_eq!(map_host_error(HostFailure::Cancelled), ProfessionalDecodeError::Cancelled);
    assert_eq!(map_host_error(HostFailure::Rpc(Some(PluginErrorKind::Cancelled))), ProfessionalDecodeError::Cancelled);
    assert_eq!(map_host_error(HostFailure::Rpc(Some(PluginErrorKind::UnsupportedFormat))), ProfessionalDecodeError::UnsupportedFormat);
    assert_eq!(map_host_error(HostFailure::Rpc(Some(PluginErrorKind::CorruptImage))), ProfessionalDecodeError::CorruptImage);
    assert_eq!(map_host_error(HostFailure::Rpc(Some(PluginErrorKind::ResourceLimit))), ProfessionalDecodeError::ResourceLimit);
    assert_eq!(map_host_error(HostFailure::Spawn), ProfessionalDecodeError::PluginUnavailable);
    assert_eq!(map_host_error(HostFailure::Rpc(Some(PluginErrorKind::PluginUnavailable))), ProfessionalDecodeError::PluginUnavailable);
    assert_eq!(map_host_error(HostFailure::Rpc(Some(PluginErrorKind::Other))), ProfessionalDecodeError::DecodeFailed);
    assert_eq!(map_host_error(HostFailure::Rpc(None)), ProfessionalDecodeError::DecodeFailed);
    assert_eq!(map_host_error(HostFailure::Other), ProfessionalDecodeError::DecodeFailed);
}

#[test]
fn probed_sizes_win_over_the_preview_when_positive() {
    assert_eq!(reported_dimensions(Some(6000), Some(4000), 4096, 2731), (6000, 4000));
    assert_eq!(reported_dimensions(Some(0), None, 4096, 2731), (4096, 2731));
}
