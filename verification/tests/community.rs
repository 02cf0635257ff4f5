use lumia_viewer::plugin_management::{permission_label, permission_named, permission_with_detail};
use lumia_viewer::community::{
    best_artifact_for_host, best_compatible_artifact_for_host, choose_install, community_action,
    displayed_version, download_within_limit, index_schema_supported, is_compatible, matches_query, search_results, verify_download,
    CommunityAction, CommunityArtifact, CommunityAuthor, CommunityIndex, CommunityPlugin,
    CommunityPluginVersion, CommunityPluginsState, CommunityStatus, DownloadError, InstallChoice, PackageDownload,
    PLUGIN_PROTOCOL_VERSION,
};
use lumia_viewer::plugin_management::ManagedPlugin;
use lumia_viewer::versions::SemanticVersion;

const HOST_OS: &str = "linux";
const HOST_ARCH: &str = "x86_64";

fn version(os: &str, arch: &str, version: &str, plugin_api_version: u32, minimum: &str) -> CommunityPluginVersion {
    CommunityPluginVersion {
        version: version.into(),
        minimum_lumia_version: minimum.into(),
        plugin_api_version,
        install_directory: "foo".into(),
        artifacts: vec![CommunityArtifact {
            target_os: os.into(),
            target_arch: arch.into(),
            url: format!("https://example.com/{version}.lumiaplugin"),
            sha256: "a".repeat(64),
            size: 1,
        }],
    }
}

fn plugin(id: &str) -> CommunityPlugin {
    CommunityPlugin {
        id: id.into(),
        name: id.into(),
        description: "A test plugin".into(),
        author: None,
        tags: vec!["decoder".into()],
        permissions: vec!["read_input_path".into()],
        repository: None,
        website: None,
        versions: Vec::new(),
    }
}

fn semver(text: &str) -> SemanticVersion {
    SemanticVersion::parse(text).unwrap()
}

#[test]
fn parse_index_accepts_valid_and_rejects_unknown_schema() {
    assert!(index_schema_supported(1));
    assert!(index_schema_supported(0));
    assert!(!index_schema_supported(2));
}

#[test]
fn best_artifact_selects_current_platform_highest_version() {
    let mut p = plugin("com.example.foo");
    p.versions = vec![
        version("windows", "x86_64", "9.0.0", 3, "0.1.0"),
        version(HOST_OS, HOST_ARCH, "0.5.0", 3, "0.1.0"),
    ];
    let (index, _) = best_artifact_for_host(&p, HOST_OS, HOST_ARCH).unwrap();
    assert_eq!(p.versions[index].version, "0.5.0");
}

#[test]
fn best_artifact_takes_the_highest_version_and_the_last_of_equals() {
    let mut p = plugin("com.example.foo");
    p.versions = vec![
        version(HOST_OS, HOST_ARCH, "1.10.0", 3, "0.1.0"),
        version(HOST_OS, HOST_ARCH, "1.9.0", 3, "0.1.0"),
        version(HOST_OS, HOST_ARCH, "not a version", 3, "0.1.0"),
        version(HOST_OS, HOST_ARCH, "1.10.0", 3, "0.1.0"),
    ];
    assert_eq!(best_artifact_for_host(&p, HOST_OS, HOST_ARCH), Some((3, 0)));
    assert_eq!(best_artifact_for_host(&p, "macos", HOST_ARCH), None);
}

#[test]
fn best_compatible_artifact_skips_incompatible_versions() {
    let mut p = plugin("com.example.foo");
    p.versions = vec![
        version(HOST_OS, HOST_ARCH, "9.0.0", PLUGIN_PROTOCOL_VERSION + 1, "0.1.0"),
        version(HOST_OS, HOST_ARCH, "1.0.0", 3, "0.1.0"),
    ];
    let current = semver("0.2.1");
    let (index, _) = best_compatible_artifact_for_host(&p, &current, HOST_OS, HOST_ARCH).unwrap();
    assert_eq!(p.versions[index].version, "1.0.0");
}

#[test]
fn search_matches_id_name_description_and_tags_case_insensitive() {
    let mut p = plugin("com.example.foo");
    p.name = "Foo Converter".into();
    p.description = "Convert HEIF to PNG".into();
    p.tags = vec!["batch".into()];
    p.author = Some(CommunityAuthor { name: "Jane Dev".into(), url: None });

    assert!(matches_query(&p, "FOO"));
    assert!(matches_query(&p, "convert"));
    assert!(matches_query(&p, "BATCH"));
    assert!(matches_query(&p, "jane"));
    assert!(matches_query(&p, "  "));
    assert!(!matches_query(&p, "xyzzy"));
}

#[test]
fn compat_rejects_wrong_api_version_and_newer_minimum() {
    assert!(!is_compatible(&version("windows", "x86_64", "1.0.0", 3, "9.0.0"), &semver("0.2.1")));
    assert!(is_compatible(&version("windows", "x86_64", "1.0.0", 3, "0.1.0"), &semver("0.2.1")));
    assert!(is_compatible(&version("windows", "x86_64", "1.0.0", 0, "garbage"), &semver("0.2.1")));
    assert!(!is_compatible(&version("windows", "x86_64", "1.0.0", 4, "0.1.0"), &semver("0.2.1")));
}

fn managed(id: &str, version: &str) -> ManagedPlugin {
    ManagedPlugin {
        id: id.into(),
        name: id.into(),
        version: version.into(),
        install_directory: id.into(),
        permissions: vec![],
    }
}

#[test]
fn community_actions_follow_installation_and_compatibility() {
    let mut p = plugin("com.example.foo");
    p.versions = vec![version(HOST_OS, HOST_ARCH, "1.0.0", 3, "0.1.0")];
    let current = semver("0.2.1");
    assert_eq!(community_action(&p, &vec![], &current, HOST_OS, HOST_ARCH), CommunityAction::Install);
    assert_eq!(
        community_action(&p, &vec![managed("com.example.foo", "0.9.0")], &current, HOST_OS, HOST_ARCH),
        CommunityAction::Update
    );
    assert_eq!(
        community_action(&p, &vec![managed("com.example.foo", "1.0.0")], &current, HOST_OS, HOST_ARCH),
        CommunityAction::Installed
    );
    assert_eq!(community_action(&p, &vec![], &current, "macos", HOST_ARCH), CommunityAction::Incompatible);
}

#[test]
fn search_results_are_sorted_by_name_with_actions() {
    let mut b = plugin("b");
    b.name = "Beta".into();
    let mut a = plugin("a");
    a.name = "Alpha".into();
    let mut hidden = plugin("c");
    hidden.name = "Gamma".into();
    hidden.description = "nothing".into();
    hidden.tags = vec![];
    let index = CommunityIndex { schema_version: 1, index_version: String::new(), plugins: vec![b, a, hidden] };
    let results = search_results(&index, "test", &vec![], &semver("0.2.1"), HOST_OS, HOST_ARCH);
    assert_eq!(results, vec![(1, CommunityAction::Incompatible), (0, CommunityAction::Incompatible)]);
}

#[test]
fn install_choice_explains_why_nothing_can_be_installed() {
    let mut p = plugin("com.example.foo");
    p.versions = vec![version(HOST_OS, HOST_ARCH, "1.0.0", 3, "9.0.0")];
    let index = CommunityIndex { schema_version: 1, index_version: String::new(), plugins: vec![p] };
    let current = semver("0.2.1");
    assert_eq!(choose_install(&index, "com.example.foo", &current, HOST_OS, HOST_ARCH), InstallChoice::Incompatible);
    assert_eq!(choose_install(&index, "com.example.foo", &current, "macos", HOST_ARCH), InstallChoice::RequiresLumia);
    assert_eq!(choose_install(&index, "missing", &current, HOST_OS, HOST_ARCH), InstallChoice::NotListed);
    assert_eq!(
        choose_install(&index, "com.example.foo", &semver("9.1.0"), HOST_OS, HOST_ARCH),
        InstallChoice::Download { plugin: 0, version: 0, artifact: 0 }
    );
}

#[test]
fn downloads_must_match_size_and_digest() {
    let data = b"lumiapack";
    let digest = hex::encode(<sha2::Sha256 as sha2::Digest>::digest(data));
    let received = |chunks: &[&[u8]]| {
        let mut download = PackageDownload::new();
        for chunk in chunks {
            assert!(download.accept(chunk));
        }
        download
    };
    assert_eq!(
        verify_download(10, received(&[&data[..4], &data[4..]]), &digest),
        Err(DownloadError::Incomplete { downloaded: 9, size: 10 })
    );
    assert_eq!(verify_download(0, received(&[&data[..4], &data[4..]]), &digest.to_uppercase()), Ok(()));
    assert_eq!(verify_download(9, received(&[&data[..]]), &digest), Ok(()));
    assert_eq!(verify_download(9, received(&[&b"lumiapacx"[..]]), &digest), Err(DownloadError::HashMismatch));
    assert_eq!(verify_download(9, received(&[&data[..]]), &"cd".repeat(32)), Err(DownloadError::HashMismatch));
}

#[test]
fn busy_states_block_a_new_load_and_stale_loads_are_ignored() {
    assert!(CommunityStatus::Loading.is_busy());
    assert!(CommunityStatus::Downloading { plugin_id: "x".into(), downloaded_bytes: 0, total_bytes: None }.is_busy());
    assert!(!CommunityStatus::Loaded.is_busy());
    let mut state = CommunityPluginsState::new();
    let first = state.start_load(None).unwrap();
    assert!(state.start_load(None).is_none());
    let second = state.begin_load();
    let index = CommunityIndex { schema_version: 1, index_version: String::new(), plugins: vec![] };
    assert!(!state.finish_load(first, false, Ok(index.clone())));
    assert!(state.finish_load(second, false, Err("offline".into())));
    assert_eq!(state.status, CommunityStatus::Idle);
}

#[test]
fn downloads_stop_past_the_package_limit() {
    assert!(download_within_limit(0));
    assert!(download_within_limit(128 * 1024 * 1024));
    assert!(!download_within_limit(128 * 1024 * 1024 + 1));
}

#[test]
fn plugin_cards_show_the_highest_listed_version() {
    let mut p = plugin("com.example.foo");
    assert_eq!(displayed_version(&p), "");
    p.versions = vec![
        version(HOST_OS, HOST_ARCH, "1.2.0", 3, "0.1.0"),
        version(HOST_OS, HOST_ARCH, "1.10.0", 3, "0.1.0"),
        version(HOST_OS, HOST_ARCH, "not a version", 3, "0.1.0"),
        version(HOST_OS, HOST_ARCH, "1.9.9", 3, "0.1.0"),
    ];
    assert_eq!(displayed_version(&p), "1.10.0");
    p.versions = vec![version(HOST_OS, HOST_ARCH, "bad", 3, "0.1.0"), version(HOST_OS, HOST_ARCH, "0.0.0", 3, "0.1.0")];
    assert_eq!(displayed_version(&p), "0.0.0");
}

#[test]
fn index_permissions_are_read_by_name() {
    assert_eq!(permission_named("network").map(|p| permission_label(&p)), Some("network".to_string()));
    assert!(permission_named("camera").is_none());
    let secret = permission_with_detail("read_config_secret", "token").unwrap();
    assert_eq!(permission_label(&secret), "read_config_secret:token");
    assert!(permission_with_detail("other", "x").is_none());
}
