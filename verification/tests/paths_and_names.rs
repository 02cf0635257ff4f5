use lumia_viewer::windows_paths::thumbnail_handler_configured;
use std::hash::{Hash, Hasher};
use lumia_viewer::cli::{parse_args, CliCommand};
use lumia_viewer::file_association_state::FileAssociationUiState;
use lumia_viewer::formats::{is_gif, is_heif, is_jpeg_path, is_svg};
use lumia_viewer::large_image::should_decode_large_image;
use lumia_viewer::persistence::{
    installer_language, language_code, Language,
    associations_path, community_index_cache_path, platform_config_dir, settings_path,
    user_plugin_root, Platform,
};
use lumia_viewer::platform_open::file_path;
use lumia_viewer::plugin_catalog::{entry_candidates, resolve_entry, resolved_entry_path};
use lumia_viewer::plugin_session::document_id;
use lumia_viewer::windows_paths::{
    is_legacy_program_files_reference, normalize_guid, normalize_windows_path, thumbnail_clsid_text,
    thumbnail_extensions,
};

fn command(args: &[&str]) -> CliCommand {
    parse_args(args.iter().map(|arg| arg.to_string()).collect(), false)
}

#[test]
fn parses_normal_and_file_open_commands() {
    assert_eq!(command(&[]), CliCommand::Normal);
    assert_eq!(
        command(&[r"C:\Pictures\sample.png"]),
        CliCommand::OpenFile(r"C:\Pictures\sample.png".into())
    );
}

#[test]
fn parses_plugin_package_verification_command() {
    assert_eq!(
        command(&["--verify-plugin-package", "annotation.lumiaplugin"]),
        CliCommand::VerifyPluginPackage("annotation.lumiaplugin".into())
    );
    assert_eq!(command(&["--verify-plugin-package"]), CliCommand::VerifyPluginPackage(String::new()));
}

#[test]
fn parses_installer_association_repair_command() {
    assert_eq!(
        parse_args(vec!["--repair-file-associations".to_string()], true),
        CliCommand::RepairFileAssociations
    );
}

#[test]
fn parses_svg_thumbnail_handler_commands() {
    assert_eq!(
        parse_args(vec!["--register-thumbnail-handler".to_string()], true),
        CliCommand::RegisterThumbnailHandler
    );
    assert_eq!(
        parse_args(vec!["--unregister-thumbnail-handler".to_string()], true),
        CliCommand::UnregisterThumbnailHandler
    );
}

#[test]
fn windows_only_flags_are_files_elsewhere() {
    let args = vec!["--repair-file-associations".to_string()];
    assert_eq!(parse_args(args.clone(), true), CliCommand::RepairFileAssociations);
    assert_eq!(parse_args(args, false), CliCommand::OpenFile("--repair-file-associations".into()));
    assert_eq!(
        parse_args(vec!["--register-thumbnail-handler".into()], true),
        CliCommand::RegisterThumbnailHandler
    );
    assert_eq!(
        parse_args(vec!["--unregister-thumbnail-handler".into()], true),
        CliCommand::UnregisterThumbnailHandler
    );
    assert_eq!(command(&["--register-context-menu"]), CliCommand::RegisterContextMenu);
    assert_eq!(command(&["--unregister-context-menu"]), CliCommand::UnregisterContextMenu);
}

#[test]
fn dirty_state_tracks_pending_selection() {
    let mut state = FileAssociationUiState::new();
    assert!(!state.is_dirty());

    state.select("png".into());
    assert!(state.is_dirty());

    state.register("png".into());
    assert!(!state.is_dirty());
}

#[test]
fn svg_paths_bypass_raster_decode_case_insensitively() {
    assert!(is_svg("vector.svg"));
    assert!(is_svg("vector.SVG"));
    assert!(!is_svg("vector.png"));
}

#[test]
fn image_kinds_follow_the_extension_in_any_case() {
    assert!(is_heif("a.HEIC") && is_heif("a.heif") && !is_heif("heic"));
    assert!(is_gif("a.Gif") && !is_gif("a.gifv"));
    assert!(is_jpeg_path("a.JPG") && is_jpeg_path("a.jpeg") && !is_jpeg_path("a.png"));
}

#[test]
fn large_raster_dispatch_excludes_plugin_and_heif_paths() {
    // The tiling policy's verdict for each size is passed in: 9000x100 and
    // 9000x9000 need tiles, 1000x800 does not.
    assert!(should_decode_large_image("wide.png", true));
    assert!(should_decode_large_image("dense.webp", true));
    assert!(!should_decode_large_image("normal.jpg", false));
    assert!(!should_decode_large_image("wide.heic", true));
    assert!(!should_decode_large_image("wide.psd", true));
}

#[test]
fn converts_encoded_file_urls_to_paths() {
    assert_eq!(
        file_path("file:///Users/test/Pictures/sample%20image.png"),
        Some("/Users/test/Pictures/sample image.png".to_string())
    );
}

#[test]
fn ignores_non_file_urls() {
    assert_eq!(file_path("https://example.com/image.png"), None);
}

#[test]
fn entry_candidates_prefer_executable_sibling() {
    let candidates = entry_candidates(r"C:\Lumia\lumia-app.exe", true);
    let stem = candidates[0].rsplit('\\').next().and_then(|name| name.strip_suffix(".exe"));
    assert_eq!(stem, Some("lumia-plugin-photoshop"));
    assert_eq!(
        candidates,
        vec![
            r"C:\Lumia\lumia-plugin-photoshop.exe".to_string(),
            r"C:\Lumia\plugins\lumia-plugin-photoshop.exe".to_string(),
            r"C:\Lumia\plugins\lumia-plugin-photoshop\lumia-plugin-photoshop.exe".to_string(),
        ]
    );
    let unix = entry_candidates("/opt/lumia/lumia-app", false);
    assert_eq!(
        unix,
        vec![
            "/opt/lumia/lumia-plugin-photoshop".to_string(),
            "/opt/lumia/plugins/lumia-plugin-photoshop".to_string(),
            "/opt/lumia/plugins/lumia-plugin-photoshop/lumia-plugin-photoshop".to_string(),
        ]
    );
}

#[test]
fn entry_resolution_picks_the_first_existing_candidate() {
    assert_eq!(
        resolve_entry("/opt/lumia/lumia-app", false, &vec![false, true, true]),
        "/opt/lumia/plugins/lumia-plugin-photoshop"
    );
    assert_eq!(
        resolve_entry("/opt/lumia/lumia-app", false, &vec![false, false, false]),
        "/opt/lumia/lumia-plugin-photoshop"
    );
}

#[test]
fn entry_resolution_adds_windows_suffix_only_when_needed() {
    // On Windows `\` and `/` separate alike; compare the components.
    assert_eq!(
        resolved_entry_path("plugins/annotation", "plugin", true).replace('\\', "/"),
        "plugins/annotation/plugin.exe"
    );
    assert_eq!(resolved_entry_path("plugins/annotation", "plugin", false), "plugins/annotation/plugin");
    assert_eq!(
        resolved_entry_path("plugins/annotation", "plugin.bin", true).replace('\\', "/"),
        "plugins/annotation/plugin.bin"
    );
}

#[test]
fn configuration_lives_where_each_platform_expects() {
    assert_eq!(
        platform_config_dir(Platform::Windows, Some("C:/Local"), None, None).map(|dir| dir.replace('\\', "/")),
        Some("C:/Local/Lumia".into())
    );
    assert_eq!(
        platform_config_dir(Platform::Windows, Some(r"C:\Users\a\AppData\Local"), None, None),
        Some(r"C:\Users\a\AppData\Local\Lumia".into())
    );
    assert_eq!(
        platform_config_dir(Platform::MacOs, None, Some("/Users/a"), None),
        Some("/Users/a/Library/Application Support/Lumia".into())
    );
    assert_eq!(platform_config_dir(Platform::OtherUnix, None, Some("/home/a"), Some("/cfg")), Some("/cfg/lumia".into()));
    assert_eq!(platform_config_dir(Platform::OtherUnix, None, Some("/home/a"), None), Some("/home/a/.config/lumia".into()));
    assert_eq!(platform_config_dir(Platform::OtherUnix, None, None, None), None);
    assert_eq!(settings_path(Some("/cfg/lumia")), Some("/cfg/lumia/settings.json".into()));
    assert_eq!(associations_path(Some("/cfg/lumia")), Some("/cfg/lumia/associations.json".into()));
    assert_eq!(settings_path(None), None);
    assert_eq!(user_plugin_root(Some("/data"), true), Some("/data/lumia/plugins".into()));
    assert_eq!(
        community_index_cache_path(Some("/data"), false),
        Some("/data/Lumia/community-plugins.json".into())
    );
}

#[test]
fn document_ids_are_sixteen_hex_digits_of_the_path_hash() {
    let mut hasher = std::hash::DefaultHasher::new();
    std::path::Path::new("/tmp/photo.jpg").hash(&mut hasher);
    let expected = format!("{:016x}", hasher.finish());
    assert_eq!(document_id("/tmp/photo.jpg"), expected);
    assert_ne!(document_id("/tmp/photo.jpg"), document_id("/tmp/other.jpg"));
}

#[test]
fn recognizes_only_legacy_program_files_lumia_paths() {
    assert!(is_legacy_program_files_reference(r#""C:\Program Files\Lumia\lumia-app.exe" "%1""#));
    assert!(is_legacy_program_files_reference(r#""C:\Program Files (x86)\Lumia\lumia-app.exe",0"#));
    assert!(!is_legacy_program_files_reference(
        r#""C:\Users\Ada\AppData\Local\Programs\Lumia\lumia-app.exe" "%1""#
    ));
    assert!(!is_legacy_program_files_reference(r#""C:\Program Files\Other\lumia-app.exe" "%1""#));
    assert!(is_legacy_program_files_reference("C:/PROGRAM FILES/LUMIA/LUMIA-APP.EXE"));
}

#[test]
fn guid_comparison_is_brace_and_case_insensitive() {
    let clsid = thumbnail_clsid_text();
    assert_eq!(normalize_guid("{0f6f22c8-3077-4B32-a61c-7738e61f242b}"), normalize_guid(clsid));
    assert_eq!(normalize_guid("0F6F22C8-3077-4B32-A61C-7738E61F242B"), normalize_guid(clsid));
    assert_ne!(normalize_guid("{11111111-2222-3333-4444-555555555555}"), normalize_guid(clsid));
}

#[test]
fn windows_paths_compare_without_quotes_case_or_slash_style() {
    assert_eq!(normalize_windows_path("\"C:/Lumia/App.exe\""), r"c:\lumia\app.exe");
    assert_eq!(normalize_windows_path(r"C:\Lumia\App.exe"), r"c:\lumia\app.exe");
}

#[test]
fn installer_languages_and_plugin_language_codes() {
    assert_eq!(installer_language("zh-CN"), Some(Language::Chinese));
    assert_eq!(installer_language("en-US"), Some(Language::English));
    assert_eq!(installer_language("en"), None);
    assert_eq!(language_code(Language::English), "en");
    assert_eq!(language_code(Language::Chinese), "zh-CN");
}

#[test]
fn format_groups_are_selected_and_cleared_together() {
    let mut state = FileAssociationUiState::new();
    let jpeg = vec!["jpg".to_string(), "jpeg".to_string()];
    state.set_group(&jpeg, true);
    assert_eq!(state.selected_extensions, vec!["jpeg".to_string(), "jpg".to_string()]);
    state.select("png".into());
    state.set_group(&jpeg, false);
    assert_eq!(state.selected_extensions, vec!["png".to_string()]);
    state.set_group(&vec!["webp".to_string()], false);
    assert_eq!(state.selected_extensions, vec!["png".to_string()]);
    state.select_all();
    assert!(state.selected_extensions.contains(&"avif".to_string()));
    assert!(state.selected_extensions.windows(2).all(|pair| pair[0] < pair[1]));
    state.clear_selection();
    assert!(state.selected_extensions.is_empty());
    assert!(state.feedback.is_none());
}

#[test]
fn registered_extensions_cover_svg_and_svgz() {
    assert_eq!(thumbnail_extensions(), ["svg", "svgz"]);
}

#[test]
fn windows_paths_split_at_both_separators() {
    assert_eq!(
        resolved_entry_path(r"C:\Plugins\annotation", r"bin\plugin", true),
        r"C:\Plugins\annotation\bin\plugin.exe"
    );
    assert_eq!(
        resolved_entry_path(r"C:\Plugins\annotation", r"v1.2\plugin", true),
        r"C:\Plugins\annotation\v1.2\plugin.exe"
    );
    assert_eq!(resolved_entry_path(r"C:\Plugins", r"D:\tools\plugin.exe", true), r"D:\tools\plugin.exe");
    assert_eq!(resolved_entry_path(r"C:\Plugins", r"\tools\plugin.exe", true), r"C:\tools\plugin.exe");
    assert_eq!(entry_candidates(r"C:\lumia.exe", true)[0], r"C:\lumia-plugin-photoshop.exe");
    assert_eq!(entry_candidates("lumia.exe", true)[0], "lumia-plugin-photoshop.exe");
}

#[test]
fn thumbnail_handler_is_configured_only_for_this_directory() {
    let exe_dir = r"C:\Apps\Lumia";
    assert!(thumbnail_handler_configured(
        Some("0f6f22c8-3077-4b32-a61c-7738e61f242b"),
        Some(r#""c:/apps/lumia/LUMIA_SVG_THUMBNAIL.dll""#),
        exe_dir
    ));
    assert!(thumbnail_handler_configured(
        Some("{0F6F22C8-3077-4B32-A61C-7738E61F242B}"),
        Some(r"C:\Apps\Lumia\lumia_svg_thumbnail.dll"),
        exe_dir
    ));
    assert!(!thumbnail_handler_configured(
        Some("{0F6F22C8-3077-4B32-A61C-7738E61F242B}"),
        Some(r"D:\Old\lumia_svg_thumbnail.dll"),
        exe_dir
    ));
    assert!(!thumbnail_handler_configured(
        Some("{11111111-2222-3333-4444-555555555555}"),
        Some(r"C:\Apps\Lumia\lumia_svg_thumbnail.dll"),
        exe_dir
    ));
    assert!(!thumbnail_handler_configured(None, Some(r"C:\Apps\Lumia\lumia_svg_thumbnail.dll"), exe_dir));
    assert!(!thumbnail_handler_configured(Some("{0F6F22C8-3077-4B32-A61C-7738E61F242B}"), None, exe_dir));
}

#[test]
fn text_that_is_not_a_url_names_no_file() {
    assert_eq!(file_path("not a url"), None);
    assert_eq!(file_path(""), None);
}
