use lumia_viewer::large_image::{LargeImageSession, TileCoordinate, TileCache};
use lumia_viewer::load_state::{ImageLoadState, LoadedImage};
use lumia_viewer::plugin_management::{
    error_kind_label, managed_plugins, package_error_kind, InstalledPluginInfo, ManagedPlugin,
    PluginManagementErrorKind, PluginManagementState, PluginManagementStatus,
};
use lumia_viewer::package_checks::PluginPackageManifest;
use lumia_viewer::plugin_management::{
    permission_summary, PendingPluginInstall, PluginPermission, VerifiedPluginPackage,
};
use lumia_viewer::plugin_package::PluginPackageError;
use lumia_viewer::plugin_session::{can_activate, ActiveSession, EventReply, PluginSessionState, ToolKind};
use lumia_viewer::preview_cache::{
    CachedPreview, FileSignature, ModifiedTime, PreviewCache, PreviewPreloadState,
};

fn file(seconds: u64) -> FileSignature {
    FileSignature {
        size_bytes: seconds,
        modified: Some(ModifiedTime { after_epoch: true, seconds, nanos: 0 }),
    }
}

fn entry(value: u8, signature: u64) -> CachedPreview<u8> {
    CachedPreview::new(value, file(signature), 4)
}

#[test]
fn lru_never_exceeds_the_byte_budget() {
    let mut cache = PreviewCache::new(8);
    cache.insert("a.jpg".into(), entry(1, 1), None);
    cache.insert("b.jpg".into(), entry(2, 2), None);
    assert!(cache.lookup("a.jpg", &file(1)).0.is_some());

    let released = cache.insert("c.jpg".into(), entry(3, 3), None);
    assert_eq!(released.len(), 1);
    assert!(cache.contains("a.jpg"));
    assert!(!cache.contains("b.jpg"));
    assert!(cache.contains("c.jpg"));
    assert_eq!(cache.bytes(), 8);
}

#[test]
fn oversized_and_stale_entries_are_released() {
    let mut cache = PreviewCache::new(8);
    let oversized = CachedPreview::new(1u8, file(1), 16);
    assert_eq!(cache.insert("large.jpg".into(), oversized, None).len(), 1);
    assert_eq!(cache.bytes(), 0);

    cache.insert("a.jpg".into(), entry(1, 1), None);
    let (hit, released) = cache.lookup("a.jpg", &file(2));
    assert!(hit.is_none());
    assert_eq!(released.len(), 1);
    assert_eq!(cache.bytes(), 0);
}

#[test]
fn pinned_preview_survives_eviction() {
    let mut cache = PreviewCache::new(8);
    cache.insert("shown.jpg".into(), entry(1, 1), None);
    cache.insert("b.jpg".into(), entry(2, 2), Some("shown.jpg"));
    let released = cache.insert("c.jpg".into(), entry(3, 3), Some("shown.jpg"));
    assert_eq!(released, vec![2]);
    assert!(cache.contains("shown.jpg"));
    assert!(cache.contains("c.jpg"));
}

#[test]
fn reinserting_a_path_releases_the_previous_preview() {
    let mut cache = PreviewCache::new(8);
    cache.insert("a.jpg".into(), entry(1, 1), None);
    let released = cache.insert("a.jpg".into(), entry(9, 2), None);
    assert_eq!(released, vec![1]);
    assert_eq!(cache.bytes(), 4);
    let (hit, _) = cache.lookup("a.jpg", &file(2));
    assert_eq!(hit.map(|preview| preview.payload), Some(9));
}

#[test]
fn preloads_are_sequential_and_restart_cancels_old_work() {
    let mut state = PreviewPreloadState::new();
    state.restart(vec!["next.jpg".into(), "previous.jpg".into()]);
    let old = state.next_job().unwrap();
    assert!(state.next_job().is_none());

    let cancelled = state.restart(vec!["new-next.jpg".into()]);
    assert_eq!(cancelled, Some(old.token));
    assert!(!state.complete(old.generation));
    let current = state.next_job().unwrap();
    assert_eq!(current.path, "new-next.jpg");
    assert!(state.complete(current.generation));
}

#[test]
fn preload_queue_drops_repeated_paths() {
    let mut state = PreviewPreloadState::new();
    state.restart(vec!["a.jpg".into(), "a.jpg".into(), "b.jpg".into()]);
    assert_eq!(state.queue, vec!["a.jpg".to_string(), "b.jpg".to_string()]);
}

fn prepared(value: u8) -> LoadedImage<u8> {
    LoadedImage { image: value, width: 1, height: 1 }
}

#[test]
fn current_decode_generation_discards_old_completion_and_cancels_work() {
    let mut state = ImageLoadState::new();
    let old = state.begin_current_load();
    let token = state.begin_decode(old).unwrap();
    let current = state.begin_current_load();
    assert_eq!(state.drain_cancelled_tokens(), vec![token]);
    assert!(!state.finish_decode(old));
    assert!(state.set_current_image(current, prepared(1)));
    assert!(state.current_image().is_some());
}

#[test]
fn replacing_display_images_retires_resources_for_gpui_release() {
    let mut state = ImageLoadState::new();
    let generation = state.begin_current_load();
    assert!(state.set_current_image(generation, prepared(1)));
    assert!(state.set_current_image(generation, prepared(2)));
    assert_eq!(state.drain_retired_images().len(), 1);

    state.set_rotated_image(Some(prepared(3)), 1);
    let next = state.begin_current_load();
    assert_eq!(state.drain_retired_images().len(), 0);
    assert!(state.is_transitioning());
    assert_eq!(state.display_image(0).unwrap().dimensions(), (1, 1));
    assert_eq!(state.display_source_dimensions(0), Some((1, 1)));
    assert!(state.set_current_image(next, prepared(4)));
    assert!(!state.is_transitioning());
    assert_eq!(state.drain_retired_images().len(), 2);
}

#[test]
fn clearing_display_images_after_a_new_load_retires_previous_raster() {
    let mut state = ImageLoadState::new();
    let raster_generation = state.begin_current_load();
    assert!(state.set_current_image(raster_generation, prepared(1)));
    assert!(state.set_source_dimensions(raster_generation, Some((1, 1))));
    state.finish_decode(raster_generation);

    let svg_generation = state.begin_current_load();
    assert!(state.is_transitioning());
    state.clear_display_images();
    state.finish_decode(svg_generation);

    assert!(!state.is_transitioning());
    assert!(state.current_image().is_none());
    assert!(state.display_image(0).is_none());
    assert_eq!(state.display_source_dimensions(0), None);
    assert_eq!(state.drain_retired_images().len(), 1);
}

#[test]
fn browsing_many_images_does_not_retain_retired_pixel_buffers() {
    let mut state = ImageLoadState::new();
    let generation = state.begin_current_load();
    assert!(state.set_current_image(generation, prepared(0)));

    for value in 1..=1_192usize {
        let previous = state.current_image().unwrap().image;
        assert!(state.set_current_image(generation, prepared(value as u8)));
        let retired = state.drain_retired_images();
        assert_eq!(retired.len(), 1);
        assert_eq!(retired[0].image, previous);
    }

    assert_eq!(state.drain_retired_images().len(), 0);
    assert!(state.current_image().is_some());
}

#[test]
fn rotated_source_dimensions_swap_on_odd_turns() {
    let mut state = ImageLoadState::new();
    let generation = state.begin_current_load();
    assert!(state.set_source_dimensions(generation, Some((40, 30))));
    assert!(state.set_current_image(generation, LoadedImage { image: 0u8, width: 4, height: 3 }));
    assert_eq!(state.display_source_dimensions(1), Some((30, 40)));
    assert_eq!(state.display_source_dimensions(2), Some((40, 30)));
}

#[test]
fn beginning_a_new_session_cancels_and_rejects_the_old_generation() {
    let mut session = LargeImageSession::<u8, ()>::new(16);
    session.begin("old.png".into(), 1, 1);
    session.mark_preview_ready(1);
    assert!(session.is_preview_ready());

    session.begin("new.png".into(), 2, 2);
    assert_eq!(session.drain_cancelled_tokens(), vec![1]);
    assert!(!session.mark_preview_ready(1));
    assert!(!session.is_preview_ready());
    assert!(session.matches(2, "new.png"));
}

#[test]
fn visible_tiles_are_queued_before_prefetch_without_duplicates() {
    let mut session = LargeImageSession::<u8, ()>::new(16);
    session.begin("image.png".into(), 7, 7);
    let a = TileCoordinate::new(0, 0, 0);
    let b = TileCoordinate::new(0, 1, 0);
    let c = TileCoordinate::new(0, 2, 0);
    session.queue_tiles(vec![a, b, a], vec![c, b]);
    assert_eq!(session.next_tile(), Some(a));
    assert_eq!(session.next_tile(), Some(b));
    assert_eq!(session.next_tile(), Some(c));
    assert_eq!(session.next_tile(), None);
}

#[test]
fn failed_tile_keeps_preview_and_successful_tiles_obey_lru_budget() {
    let mut session = LargeImageSession::<u8, ()>::new(8);
    session.begin("image.png".into(), 3, 3);
    session.mark_preview_ready(3);
    let a = TileCoordinate::new(0, 0, 0);
    let b = TileCoordinate::new(0, 1, 0);
    assert!(session.complete_tile(3, a, None, 0).0);
    assert!(session.is_preview_ready());
    assert!(session.complete_tile(3, a, Some(1_u8), 8).0);
    assert!(session.complete_tile(3, b, Some(2_u8), 8).0);
    assert!(session.tile(&a).is_none());
    assert_eq!(session.tile(&b), Some(&2));
    assert_eq!(session.drain_retired_tiles(), vec![1]);
}

#[test]
fn stale_tiles_and_rasters_are_given_back() {
    let mut session = LargeImageSession::<u8, u32>::new(8);
    session.begin("image.png".into(), 3, 3);
    let (taken, returned) = session.complete_tile(2, TileCoordinate::new(0, 0, 0), Some(5), 1);
    assert!(!taken);
    assert_eq!(returned, Some(5));
    assert_eq!(session.install_raster(2, 9), Some(9));
    assert_eq!(session.install_raster(3, 9), None);
    assert_eq!(session.raster(), Some(&9));
}

#[test]
fn tile_cache_rejects_tiles_larger_than_the_budget() {
    let mut cache = TileCache::new(4);
    cache.insert(TileCoordinate::new(1, 0, 0), 'x', 5);
    assert!(!cache.contains(&TileCoordinate::new(1, 0, 0)));
    assert_eq!(cache.drain_retired(), vec!['x']);
}

fn installed(root: &str, id: &str, name: &str) -> InstalledPluginInfo {
    InstalledPluginInfo {
        root: root.into(),
        id: id.into(),
        name: name.into(),
        version: "1.0.0".into(),
        permissions: vec![],
    }
}

#[test]
fn inspection_generation_rejects_stale_completion() {
    let mut state = PluginManagementState::from_registry(&Vec::new(), None);
    let first = state.begin_inspection();
    let second = state.begin_inspection();

    assert!(!state.is_current(first));
    assert!(state.is_current(second));
    assert_eq!(state.status, PluginManagementStatus::Inspecting);
}

#[test]
fn cancel_clears_pending_operation_state() {
    let mut state = PluginManagementState::from_registry(&Vec::new(), None);
    state.begin_inspection();
    state.cancel_pending();

    assert!(state.pending.is_none());
    assert_eq!(state.status, PluginManagementStatus::Idle);
}

#[test]
fn invalid_signature_is_a_stable_invalid_package_category() {
    assert_eq!(
        package_error_kind(&PluginPackageError::InvalidSignature),
        PluginManagementErrorKind::InvalidPackage
    );
}

#[test]
fn package_errors_are_grouped_for_display() {
    assert_eq!(
        package_error_kind(&PluginPackageError::DowngradeBlocked {
            installed: "2.0.0".into(),
            package: "1.0.0".into()
        }),
        PluginManagementErrorKind::Incompatible
    );
    assert_eq!(package_error_kind(&PluginPackageError::Io("x".into())), PluginManagementErrorKind::Storage);
    assert_eq!(error_kind_label(PluginManagementErrorKind::InvalidPackage), "invalid_package");
    assert_eq!(error_kind_label(PluginManagementErrorKind::Storage), "storage");
}

#[test]
fn managed_plugins_are_the_users_sorted_by_name() {
    let plugins = vec![
        installed("/data/lumia/plugins/zeta", "z", "Zeta"),
        installed("/opt/lumia/plugins/bundled", "b", "Bundled"),
        installed("/data/lumia/plugins/alpha", "a", "Alpha"),
    ];
    let listed = managed_plugins(&plugins, Some("/data/lumia/plugins"));
    let names: Vec<&str> = listed.iter().map(|plugin| plugin.name.as_str()).collect();
    assert_eq!(names, vec!["Alpha", "Zeta"]);
    assert_eq!(listed[0].install_directory, "alpha");
    assert!(managed_plugins(&plugins, None).is_empty());
}

#[test]
fn recording_an_install_replaces_and_places_by_name() {
    let plugins = vec![
        installed("/u/p/a", "a", "Alpha"),
        installed("/u/p/c", "c", "Charlie"),
    ];
    let mut state = PluginManagementState::from_registry(&plugins, Some("/u/p"));
    state.record_installed(&installed("/u/p/b", "b", "Bravo"));
    state.record_installed(&installed("/u/p/c2", "c", "Able"));
    let ids: Vec<(&str, &str)> = state
        .installed
        .iter()
        .map(|plugin: &ManagedPlugin| (plugin.id.as_str(), plugin.name.as_str()))
        .collect();
    assert_eq!(ids, vec![("c", "Able"), ("a", "Alpha"), ("b", "Bravo")]);
}

#[test]
fn install_completion_of_a_superseded_operation_is_ignored() {
    let mut state = PluginManagementState::from_registry(&Vec::new(), None);
    let generation = state.begin_inspection();
    state.cancel_pending();
    assert!(!state.finish_install(generation, Err("late".into())));
    assert_eq!(state.status, PluginManagementStatus::Idle);
}

#[test]
fn removal_needs_a_plugin_directory_and_an_inactive_plugin() {
    let plugins = vec![installed("/u/p/a", "a", "Alpha")];
    let mut state = PluginManagementState::from_registry(&plugins, Some("/u/p"));
    assert!(state.begin_removal("missing", true, None).is_none());
    assert!(state.begin_removal("a", true, Some("a")).is_none());
    assert!(matches!(
        state.status,
        PluginManagementStatus::Error { kind: PluginManagementErrorKind::Removal, .. }
    ));
    let (plugin, generation) = state.begin_removal("a", true, None).unwrap();
    assert_eq!(plugin.id, "a");
    assert!(state.finish_removal(generation, Ok(("Alpha".into(), false)), &Vec::new(), Some("/u/p")));
    assert!(state.installed.is_empty());
    assert_eq!(
        state.status,
        PluginManagementStatus::Removed { name: "Alpha".into(), restart_required: false }
    );
}

fn pending(version: &str) -> PendingPluginInstall {
    PendingPluginInstall {
        package: VerifiedPluginPackage {
            archive_path: "/tmp/annotation.lumiaplugin".into(),
            manifest: PluginPackageManifest {
                schema_version: 1,
                plugin_id: "lumia.annotation".into(),
                version: version.into(),
                plugin_api_version: 3,
                minimum_lumia_version: "0.1.0".into(),
                target_os: "linux".into(),
                target_arch: "x86_64".into(),
                install_directory: "lumia-plugin-annotation".into(),
                files: vec![],
            },
        },
        name: "Annotation".into(),
        permissions: vec!["read_input_path".into()],
        installed_version: None,
    }
}

#[test]
fn inspected_package_awaits_confirmation_then_installs() {
    let mut state = PluginManagementState::from_registry(&Vec::new(), Some("/u/p"));
    let stale = state.begin_inspection();
    let generation = state.begin_inspection();
    assert!(!state.finish_inspection(stale, Ok(pending("1.0.0"))));
    assert_eq!(state.status, PluginManagementStatus::Inspecting);
    assert!(state.finish_inspection(generation, Ok(pending("1.0.0"))));
    assert_eq!(state.status, PluginManagementStatus::AwaitingConfirmation);
    assert!(state.pending.is_some());

    assert_eq!(state.begin_install(false), None);
    assert!(matches!(
        state.status,
        PluginManagementStatus::Error { kind: PluginManagementErrorKind::Storage, .. }
    ));
    let install = state.begin_install(true).unwrap();
    assert_eq!(state.status, PluginManagementStatus::Installing);
    assert!(!state.is_current(generation));
    assert!(state.is_current(install));
}

#[test]
fn refused_inspection_shows_its_error_kind() {
    let mut state = PluginManagementState::from_registry(&Vec::new(), None);
    let generation = state.begin_inspection();
    assert!(state.finish_inspection(generation, Err((PluginPackageError::InvalidSignature, "bad".into()))));
    assert!(state.pending.is_none());
    assert_eq!(
        state.status,
        PluginManagementStatus::Error { kind: PluginManagementErrorKind::InvalidPackage, message: "bad".into() }
    );
    assert_eq!(state.begin_install(true), None);
}

#[test]
fn decode_readiness_and_file_versions_follow_the_current_load() {
    let mut state: ImageLoadState<u8> = ImageLoadState::new();
    let old = state.begin_current_load();
    let current = state.begin_current_load();
    state.begin_decode(current).unwrap();
    assert!(!state.mark_decode_ready(old));
    assert!(state.is_decoding);
    assert!(state.mark_decode_ready(current));
    assert!(!state.is_decoding);
    state.set_file_metadata(file(9));
    assert_eq!(state.file_metadata, Some(file(9)));
}

#[test]
fn detail_errors_are_kept_for_the_live_session_only() {
    let mut session = LargeImageSession::<u8, ()>::new(16);
    session.record_detail_error(1, "before".into());
    assert_eq!(session.detail_error().map(String::as_str), None);
    session.begin("image.png".into(), 1, 1);
    session.record_detail_error(0, "stale".into());
    assert_eq!(session.detail_error().map(String::as_str), None);
    session.record_detail_error(1, "tiles failed".into());
    assert_eq!(session.detail_error().map(String::as_str), Some("tiles failed"));
}

#[test]
fn permissions_are_listed_by_name() {
    assert_eq!(permission_summary(&vec![], "No permissions"), "No permissions");
    assert_eq!(
        permission_summary(
            &vec![
                PluginPermission::ReadInputPath,
                PluginPermission::Network,
                PluginPermission::ReadConfigSecret("token".into()),
                PluginPermission::WriteTemporaryOutput,
            ],
            "none"
        ),
        "read_input_path, network, read_config_secret:token, write_temporary_output"
    );
}

fn session(id: &str, value: u8, tool: Option<ToolKind>) -> ActiveSession<u8> {
    ActiveSession { plugin_id: id.into(), session: value, tool, busy: false }
}

#[test]
fn plugin_panels_open_only_when_nothing_else_holds_the_viewer() {
    assert!(can_activate(false, false, true, false, false, true, true));
    assert!(can_activate(false, false, true, true, true, true, true));
    assert!(!can_activate(true, false, true, false, false, true, true));
    assert!(!can_activate(false, true, true, false, false, true, true));
    assert!(!can_activate(false, false, false, false, false, true, true));
    assert!(!can_activate(false, false, true, true, false, true, true));
    assert!(!can_activate(false, false, true, false, false, false, true));
    assert!(!can_activate(false, false, true, false, false, true, false));
}

#[test]
fn superseded_activation_and_replies_are_ignored() {
    let mut state: PluginSessionState<u8> = PluginSessionState::new();
    let (first, closed) = state.begin_activation();
    assert!(closed.is_none());
    let (second, _) = state.begin_activation();
    assert!(!state.finish_activation(first, Ok(session("a", 1, None))));
    assert!(state.active.is_none());
    assert!(state.finish_activation(second, Ok(session("a", 1, None))));

    let (generation, plugin) = state.begin_event().unwrap();
    assert_eq!(plugin, "a");
    assert_eq!(state.begin_event(), None);
    assert_eq!(state.finish_event(generation, "b", Ok((2, None))), EventReply::Ignored);
    assert_eq!(
        state.finish_event(generation, "a", Ok((2, Some(ToolKind::Text)))),
        EventReply::Updated { tool_changed: true }
    );
    let active = state.active.as_ref().unwrap();
    assert_eq!((active.session, active.tool, active.busy), (2, Some(ToolKind::Text), false));
    assert!(state.is_text_tool_active());

    let (generation, _) = state.begin_event().unwrap();
    assert_eq!(state.finish_event(generation, "a", Err("crashed".into())), EventReply::Failed);
    assert!(state.active.as_ref().unwrap().busy);
    assert_eq!(state.feedback.as_deref(), Some("crashed"));
    assert_eq!(state.begin_event(), None);

    let closed = state.close().unwrap();
    assert_eq!(closed.session, 2);
    assert_eq!(state.finish_event(generation, "a", Ok((3, None))), EventReply::Ignored);
}

#[test]
fn failed_activation_shows_its_message() {
    let mut state: PluginSessionState<u8> = PluginSessionState::new();
    let (generation, _) = state.begin_activation();
    assert!(state.finish_activation(generation, Err("no such panel".into())));
    assert!(state.active.is_none());
    assert_eq!(state.feedback.as_deref(), Some("no such panel"));
    let (_, _) = state.begin_activation();
    assert!(state.feedback.is_none());
}

#[test]
fn repeated_inserts_stay_within_the_byte_budget() {
    let mut cache = PreviewCache::new(8);
    for round in 0..20u8 {
        let path = format!("{}.jpg", round % 5);
        cache.insert(path, entry(round, u64::from(round)), Some("0.jpg"));
        assert!(cache.bytes() <= 8);
    }
}
