use lumia_viewer::plugin_registry::{
    validate_official_plugin_manifest, verify_asset_digest, AssetError, ContextMenuEntry, InstalledPlugin,
    ManifestRoles, OfficialManifestError, PluginAsset, PluginCommand, PluginIcon, PluginRegistry,
};
use lumia_viewer::preview_cache::{
    adjacent_preload_candidates, CachedPreview, FileSignature, ModifiedTime, PreviewCache,
};

fn plugin(id: &str, root: &str, extensions: &[&str]) -> InstalledPlugin {
    InstalledPlugin {
        id: id.to_string(),
        root: root.to_string(),
        entry: "bin/plugin".to_string(),
        probe: !extensions.is_empty(),
        decode_preview: !extensions.is_empty(),
        canvas_overlay: false,
        supported_extensions: extensions.iter().map(|e| e.to_string()).collect(),
        assets: vec![PluginAsset {
            id: "icon".to_string(),
            path: "assets/icon.svg".to_string(),
            sha256: "ba7816bf8f01cfea414140de5dae2223b00361a396177a9cb410ff61f20015ad".to_string(),
        }],
        commands: vec![],
        context_menu: vec![],
    }
}

fn command(id: &str, icon: PluginIcon, requires_document: bool) -> PluginCommand {
    PluginCommand { id: id.into(), label: format!("Run {id}"), icon, requires_document }
}

fn menu(command_id: &str, group: u32, order: i32) -> ContextMenuEntry {
    ContextMenuEntry { command_id: command_id.into(), group, order }
}

fn ids(registry: &PluginRegistry) -> Vec<String> {
    registry.all().iter().map(|p| p.id.clone()).collect()
}

#[test]
fn discovered_plugins_are_sorted_by_id_and_first_found_wins() {
    let registry = PluginRegistry::from_discovered(vec![
        plugin("com.lumia.photoshop", "/user/photoshop", &["psd"]),
        plugin("com.lumia.annotation", "/user/annotation", &[]),
        plugin("com.lumia.photoshop", "/system/photoshop", &["psd", "psb"]),
    ]);
    assert_eq!(ids(&registry), vec!["com.lumia.annotation", "com.lumia.photoshop"]);
    assert_eq!(registry.get("com.lumia.photoshop").unwrap().root, "/user/photoshop");
    assert!(registry.get("com.lumia.missing").is_none());
}

#[test]
fn decoder_lookup_ignores_leading_dots_and_ascii_case() {
    let registry = PluginRegistry::from_discovered(vec![
        plugin("com.lumia.annotation", "/a", &[]),
        plugin("com.lumia.photoshop", "/p", &["psd", "PSB"]),
    ]);
    assert_eq!(registry.decoder_for_extension(".PSD").unwrap().id, "com.lumia.photoshop");
    assert_eq!(registry.decoder_for_extension("..psb").unwrap().id, "com.lumia.photoshop");
    assert!(registry.decoder_for_extension("png").is_none());
    assert!(registry.decoder_for_extension("").is_none());
}

#[test]
fn removed_plugin_is_no_longer_found() {
    let mut registry = PluginRegistry::from_discovered(vec![
        plugin("com.lumia.photoshop", "/p", &["psd"]),
        plugin("com.lumia.annotation", "/a", &[]),
    ]);
    registry.remove("com.lumia.photoshop");
    assert!(registry.get("com.lumia.photoshop").is_none());
    assert!(registry.decoder_for_extension("psd").is_none());
    assert_eq!(ids(&registry), vec!["com.lumia.annotation"]);
    registry.remove("com.lumia.unknown");
    assert_eq!(ids(&registry), vec!["com.lumia.annotation"]);
}

#[test]
fn asset_paths_are_joined_under_the_plugin_root() {
    let installed = plugin("com.lumia.annotation", "/plugins/annotation", &[]);
    assert_eq!(installed.asset_path("icon").as_deref(), Some("/plugins/annotation/assets/icon.svg"));
    assert!(installed.asset_path("missing").is_none());
    assert_eq!(installed.entry_path(false), "/plugins/annotation/bin/plugin");
    // On Windows the join writes `\`, and both separators count.
    assert_eq!(installed.entry_path(true), "/plugins/annotation\\bin/plugin.exe");
}

#[test]
fn asset_digest_must_match_the_manifest() {
    let installed = plugin("com.lumia.annotation", "/a", &[]);
    assert_eq!(verify_asset_digest(&installed.assets[0], b"abc"), Ok(()));
    assert_eq!(
        verify_asset_digest(&installed.assets[0], b"abd"),
        Err(AssetError::Integrity("icon".to_string()))
    );
}

fn roles(probe: bool, decode: bool, ui: bool, contributions: bool, extensions: bool) -> ManifestRoles {
    ManifestRoles {
        probe,
        decode_preview: decode,
        ui_contributions: ui,
        has_contributions: contributions,
        has_extensions: extensions,
    }
}

#[test]
fn official_manifest_needs_a_sound_role() {
    assert_eq!(
        validate_official_plugin_manifest(roles(true, false, false, false, true), None, None),
        Err(OfficialManifestError::NoRole)
    );
    assert_eq!(
        validate_official_plugin_manifest(roles(true, true, false, false, false), None, None),
        Err(OfficialManifestError::NoExtensions)
    );
    assert_eq!(
        validate_official_plugin_manifest(roles(true, true, false, false, true), Some("bad".into()), None),
        Err(OfficialManifestError::InvalidDecoder("bad".into()))
    );
    assert_eq!(
        validate_official_plugin_manifest(roles(false, false, false, true, false), None, Some("ui".into())),
        Err(OfficialManifestError::InvalidUi("ui".into()))
    );
    assert_eq!(
        validate_official_plugin_manifest(roles(true, true, true, true, true), None, None),
        Ok(())
    );
    assert_eq!(
        validate_official_plugin_manifest(roles(false, false, true, false, false), Some("ignored".into()), None),
        Ok(())
    );
}

fn cached(seconds: u64) -> CachedPreview<u8> {
    CachedPreview::new(
        0,
        FileSignature {
            size_bytes: 1,
            modified: Some(ModifiedTime { after_epoch: true, seconds, nanos: 0 }),
        },
        1,
    )
}

#[test]
fn adjacent_preloads_follow_the_direction_of_travel() {
    let mut cache = PreviewCache::new(16);
    cache.insert("/p/b.jpg".into(), cached(1), None);
    let forward = adjacent_preload_candidates(
        false,
        Some("/p/b.jpg"),
        &cache,
        false,
        Some("/p/a.JPEG".to_string()),
        Some("/p/c.jpg".to_string()),
    );
    assert_eq!(forward, Some(vec!["/p/c.jpg".to_string(), "/p/a.JPEG".to_string()]));
    let backward = adjacent_preload_candidates(
        false,
        Some("/p/b.jpg"),
        &cache,
        true,
        Some("/p/a.jpg".to_string()),
        Some("/p/c.jpg".to_string()),
    );
    assert_eq!(backward, Some(vec!["/p/a.jpg".to_string(), "/p/c.jpg".to_string()]));
}

#[test]
fn adjacent_preloads_skip_cached_repeated_and_other_formats() {
    let mut cache = PreviewCache::new(16);
    cache.insert("/p/b.jpg".into(), cached(1), None);
    cache.insert("/p/c.jpg".into(), cached(2), None);
    let wrap = adjacent_preload_candidates(
        false,
        Some("/p/b.jpg"),
        &cache,
        false,
        Some("/p/a.png".to_string()),
        Some("/p/c.jpg".to_string()),
    );
    assert_eq!(wrap, Some(vec![]));
    let same = adjacent_preload_candidates(
        false,
        Some("/p/b.jpg"),
        &cache,
        false,
        Some("/p/d.jpg".to_string()),
        Some("/p/d.jpg".to_string()),
    );
    assert_eq!(same, Some(vec!["/p/d.jpg".to_string()]));
    let itself = adjacent_preload_candidates(
        false,
        Some("/p/b.jpg"),
        &cache,
        false,
        Some("/p/b.jpg".to_string()),
        None,
    );
    assert_eq!(itself, Some(vec![]));
}

#[test]
fn adjacent_preloads_wait_for_decoding_and_a_cached_current_image() {
    let mut cache = PreviewCache::new(16);
    cache.insert("/p/b.jpg".into(), cached(1), None);
    let next = Some("/p/c.jpg".to_string());
    assert_eq!(adjacent_preload_candidates(true, Some("/p/b.jpg"), &cache, false, None, next.clone()), None);
    assert_eq!(adjacent_preload_candidates(false, None, &cache, false, None, next.clone()), None);
    assert_eq!(adjacent_preload_candidates(false, Some("/p/x.jpg"), &cache, false, None, next), None);
}

#[test]
fn absent_plugins_contribute_no_context_menu_items() {
    let registry = PluginRegistry::new();
    assert!(registry.context_menu_items(true, true).is_empty());
}

#[test]
fn context_menu_items_are_sorted_by_group_then_order() {
    let mut annotation = plugin("com.lumia.annotation", "/p/annotation", &[]);
    annotation.canvas_overlay = true;
    annotation.commands = vec![
        command("annotate", PluginIcon::Asset("icon".into()), true),
        command("about", PluginIcon::Annotation, false),
    ];
    annotation.context_menu = vec![menu("annotate", 1, 5), menu("missing", 0, 0), menu("about", 0, 9)];
    let mut tools = plugin("com.lumia.tools", "/p/tools", &[]);
    tools.commands = vec![command("export", PluginIcon::Export, false)];
    tools.context_menu = vec![menu("export", 1, 5), menu("export", 0, 1)];
    let mut silent = plugin("com.lumia.silent", "/p/silent", &[]);
    silent.context_menu = vec![menu("export", 0, 0)];
    let registry = PluginRegistry::from_discovered(vec![tools, silent, annotation]);

    let items = registry.context_menu_items(false, false);
    let order: Vec<(&str, &str)> = items.iter().map(|i| (i.plugin_id.as_str(), i.command_id.as_str())).collect();
    assert_eq!(
        order,
        vec![
            ("com.lumia.tools", "export"),
            ("com.lumia.annotation", "about"),
            ("com.lumia.annotation", "annotate"),
            ("com.lumia.tools", "export"),
        ]
    );
    assert_eq!(items[2].label, "Run annotate");
    assert_eq!(items[2].icon_path.as_deref(), Some("/p/annotation/assets/icon.svg"));
    assert!(!items[2].enabled);
    assert!(!items[1].enabled);
    assert!(items[0].enabled);
    assert_eq!(items[0].icon, PluginIcon::Export);

    let items = registry.context_menu_items(true, true);
    assert!(items.iter().all(|item| item.enabled));
}
