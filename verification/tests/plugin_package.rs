use std::io::{Cursor, Write};

use base64::Engine as _;
use lumia_viewer::package_archive::{check_package_contents, open_signed_package};
use lumia_viewer::package_checks::{
    is_official_plugin_id, official_plugin_public_key, validate_compatibility,
    validate_declarations, verify_ed25519_signature, HostInfo, PluginPackageFile,
    PluginPackageManifest,
};
use lumia_viewer::plugin_package::{
    is_windows_reserved_name, path_comparison_key, validate_archive_path, PluginPackageError,
    MAX_FILE_BYTES, MAX_PAYLOAD_FILES,
};
use ring::signature::{Ed25519KeyPair, KeyPair};
use sha2::{Digest, Sha256};
use zip::write::SimpleFileOptions;
use zip::{CompressionMethod, ZipWriter};

const TEST_SEED: [u8; 32] = [7; 32];
const PAYLOAD_PATH: &str = "lumia-plugin-annotation/plugin.bin";
const PAYLOAD: &[u8] = b"official annotation executable";

fn host() -> HostInfo {
    HostInfo {
        target_os: "linux".into(),
        target_arch: "x86_64".into(),
        plugin_api_version: 3,
        lumia_version: "0.2.1".into(),
    }
}

fn compatible_manifest(files: Vec<PluginPackageFile>) -> PluginPackageManifest {
    PluginPackageManifest {
        schema_version: 1,
        plugin_id: "lumia.annotation".into(),
        version: "0.1.0".into(),
        plugin_api_version: 3,
        minimum_lumia_version: "0.2.1".into(),
        target_os: "linux".into(),
        target_arch: "x86_64".into(),
        install_directory: "lumia-plugin-annotation".into(),
        files,
    }
}

fn declared_file(path: &str, bytes: &[u8]) -> PluginPackageFile {
    PluginPackageFile {
        path: path.into(),
        size: bytes.len() as u64,
        sha256: hex::encode(Sha256::digest(bytes)),
    }
}

fn manifest_json(manifest: &PluginPackageManifest) -> Vec<u8> {
    let files = manifest
        .files
        .iter()
        .map(|file| format!(r#"{{"path":"{}","size":{},"sha256":"{}"}}"#, file.path, file.size, file.sha256))
        .collect::<Vec<_>>()
        .join(",");
    format!(
        r#"{{"schema_version":{},"plugin_id":"{}","version":"{}","plugin_api_version":{},"minimum_lumia_version":"{}","target_os":"{}","target_arch":"{}","install_directory":"{}","files":[{}]}}"#,
        manifest.schema_version,
        manifest.plugin_id,
        manifest.version,
        manifest.plugin_api_version,
        manifest.minimum_lumia_version,
        manifest.target_os,
        manifest.target_arch,
        manifest.install_directory,
        files
    )
    .into_bytes()
}

#[derive(Default)]
struct PackageOptions {
    payload: Vec<u8>,
    declared_payload: Vec<u8>,
    omit_payload: bool,
    mutate_manifest_after_signing: bool,
    extra_files: Vec<(String, Vec<u8>)>,
    symlink: Option<(String, String)>,
}

struct PackageFixture {
    bytes: Vec<u8>,
    manifest: PluginPackageManifest,
    key_pair: Ed25519KeyPair,
}

impl PackageFixture {
    fn valid() -> Self {
        Self::build(PackageOptions::default())
    }

    fn build(mut options: PackageOptions) -> Self {
        if options.payload.is_empty() {
            options.payload = PAYLOAD.to_vec();
        }
        if options.declared_payload.is_empty() {
            options.declared_payload = options.payload.clone();
        }
        let key_pair = Ed25519KeyPair::from_seed_unchecked(&TEST_SEED).unwrap();
        let manifest = compatible_manifest(vec![declared_file(PAYLOAD_PATH, &options.declared_payload)]);
        let signed_manifest = manifest_json(&manifest);
        let signature = base64::engine::general_purpose::STANDARD.encode(key_pair.sign(&signed_manifest).as_ref());
        let mut archive_manifest = signed_manifest;
        if options.mutate_manifest_after_signing {
            archive_manifest.push(b' ');
        }

        let mut writer = ZipWriter::new(Cursor::new(Vec::new()));
        let file_options = SimpleFileOptions::default().compression_method(CompressionMethod::Stored);
        write_file(&mut writer, "lumia.package.json", &archive_manifest, file_options);
        write_file(&mut writer, "lumia.package.sig", signature.as_bytes(), file_options);
        if !options.omit_payload {
            write_file(&mut writer, PAYLOAD_PATH, &options.payload, file_options);
        }
        for (name, bytes) in options.extra_files {
            write_file(&mut writer, &name, &bytes, file_options);
        }
        if let Some((name, target)) = options.symlink {
            writer.add_symlink(name, target, SimpleFileOptions::default()).unwrap();
        }
        let bytes = writer.finish().unwrap().into_inner();
        Self { bytes, manifest, key_pair }
    }

    fn public_key(&self) -> Vec<u8> {
        self.key_pair.public_key().as_ref().to_vec()
    }
}

fn write_file(writer: &mut ZipWriter<Cursor<Vec<u8>>>, path: &str, bytes: &[u8], options: SimpleFileOptions) {
    writer.start_file(path, options).unwrap();
    writer.write_all(bytes).unwrap();
}

/// Opens and checks a fixture as the application does, with the manifest
/// it signed standing for the one parsed from the package.
fn inspect(fixture: &PackageFixture) -> Result<(), PluginPackageError> {
    let mut package = open_signed_package(fixture.bytes.clone(), &fixture.public_key())?;
    assert_eq!(package.manifest_bytes, manifest_json(&fixture.manifest));
    check_package_contents(&mut package.archive, &fixture.manifest, None, &host())
}

#[test]
fn package_manifest_round_trips_schema_and_compatibility() {
    let manifest = compatible_manifest(vec![declared_file(PAYLOAD_PATH, PAYLOAD)]);
    validate_compatibility(&manifest, None, &host()).unwrap();
}

#[test]
fn third_party_plugin_id_passes_compatibility() {
    let manifest = compatible_manifest(Vec::new());
    assert_eq!(manifest.plugin_id, "lumia.annotation");
    let mut third_party = manifest;
    third_party.plugin_id = "com.example.foo".into();
    third_party.install_directory = "foo".into();
    validate_compatibility(&third_party, None, &host()).unwrap();
}

#[test]
fn compatibility_rejects_wrong_schema_platform_api_and_downgrade() {
    let mut manifest = compatible_manifest(Vec::new());
    manifest.schema_version = 2;
    assert_eq!(
        validate_compatibility(&manifest, None, &host()).unwrap_err(),
        PluginPackageError::UnsupportedSchema(2)
    );

    let mut manifest = compatible_manifest(Vec::new());
    manifest.target_os = "other".into();
    assert!(matches!(
        validate_compatibility(&manifest, None, &host()),
        Err(PluginPackageError::IncompatiblePlatform { .. })
    ));

    let mut manifest = compatible_manifest(Vec::new());
    manifest.plugin_api_version += 1;
    assert!(matches!(
        validate_compatibility(&manifest, None, &host()),
        Err(PluginPackageError::IncompatiblePluginApi { .. })
    ));

    let manifest = compatible_manifest(Vec::new());
    assert_eq!(
        validate_compatibility(&manifest, Some("0.2.0"), &host()).unwrap_err(),
        PluginPackageError::DowngradeBlocked { installed: "0.2.0".into(), package: "0.1.0".into() }
    );
}

#[test]
fn compatibility_rejects_bad_versions_architecture_and_newer_minimum() {
    let mut manifest = compatible_manifest(Vec::new());
    manifest.version = "one".into();
    assert_eq!(
        validate_compatibility(&manifest, None, &host()).unwrap_err(),
        PluginPackageError::InvalidVersion { field: "version".into(), value: "one".into() }
    );
    let mut manifest = compatible_manifest(Vec::new());
    manifest.target_arch = "riscv64".into();
    assert_eq!(
        validate_compatibility(&manifest, None, &host()).unwrap_err(),
        PluginPackageError::IncompatibleArchitecture { expected: "x86_64".into(), actual: "riscv64".into() }
    );
    let mut manifest = compatible_manifest(Vec::new());
    manifest.minimum_lumia_version = "0.3.0".into();
    assert_eq!(
        validate_compatibility(&manifest, None, &host()).unwrap_err(),
        PluginPackageError::IncompatibleLumiaVersion { minimum: "0.3.0".into(), current: "0.2.1".into() }
    );
    let mut manifest = compatible_manifest(Vec::new());
    manifest.install_directory = "a/b".into();
    assert_eq!(
        validate_compatibility(&manifest, None, &host()).unwrap_err(),
        PluginPackageError::UnsafeInstallDirectory("a/b".into())
    );
    assert_eq!(
        validate_compatibility(&compatible_manifest(Vec::new()), Some("junk"), &host()).unwrap_err(),
        PluginPackageError::InvalidVersion { field: "installed version".into(), value: "junk".into() }
    );
    validate_compatibility(&compatible_manifest(Vec::new()), Some("0.1.0"), &host()).unwrap();
}

#[test]
fn valid_signed_package_is_inspected_without_extraction() {
    let fixture = PackageFixture::valid();
    inspect(&fixture).unwrap();
    assert_eq!(fixture.manifest.plugin_id, "lumia.annotation");
}

#[test]
fn changed_manifest_and_tampered_payload_are_rejected() {
    let changed_manifest = PackageFixture::build(PackageOptions {
        mutate_manifest_after_signing: true,
        ..PackageOptions::default()
    });
    assert_eq!(inspect(&changed_manifest).unwrap_err(), PluginPackageError::InvalidSignature);

    let tampered = PackageFixture::build(PackageOptions {
        payload: b"tampered executable".to_vec(),
        declared_payload: PAYLOAD.to_vec(),
        ..PackageOptions::default()
    });
    assert_eq!(inspect(&tampered).unwrap_err(), PluginPackageError::SizeMismatch(PAYLOAD_PATH.into()));
}

#[test]
fn same_size_tampering_is_a_hash_mismatch() {
    let mut forged = PAYLOAD.to_vec();
    forged[0] ^= 1;
    let tampered = PackageFixture::build(PackageOptions {
        payload: forged,
        declared_payload: PAYLOAD.to_vec(),
        ..PackageOptions::default()
    });
    assert_eq!(inspect(&tampered).unwrap_err(), PluginPackageError::HashMismatch(PAYLOAD_PATH.into()));
}

#[test]
fn missing_extra_duplicate_and_case_colliding_files_are_rejected() {
    let missing = PackageFixture::build(PackageOptions { omit_payload: true, ..PackageOptions::default() });
    assert_eq!(inspect(&missing).unwrap_err(), PluginPackageError::MissingPayload(PAYLOAD_PATH.into()));

    let extra = PackageFixture::build(PackageOptions {
        extra_files: vec![("lumia-plugin-annotation/extra.bin".into(), vec![1])],
        ..PackageOptions::default()
    });
    assert_eq!(
        inspect(&extra).unwrap_err(),
        PluginPackageError::UnexpectedPayload("lumia-plugin-annotation/extra.bin".into())
    );

    let duplicate_manifest = compatible_manifest(vec![
        declared_file(PAYLOAD_PATH, PAYLOAD),
        declared_file(PAYLOAD_PATH, PAYLOAD),
    ]);
    assert!(matches!(validate_declarations(&duplicate_manifest), Err(PluginPackageError::DuplicatePath(_))));

    let collision = PackageFixture::build(PackageOptions {
        extra_files: vec![("LUMIA-PLUGIN-ANNOTATION/PLUGIN.BIN".into(), PAYLOAD.to_vec())],
        ..PackageOptions::default()
    });
    assert!(matches!(inspect(&collision), Err(PluginPackageError::DuplicatePath(_))));
}

#[test]
fn traversal_absolute_reserved_and_symlink_entries_are_rejected() {
    for unsafe_path in [
        "../escape.bin",
        "/absolute.bin",
        "lumia-plugin-annotation/CON",
        "lumia-plugin-annotation/trailing.",
        r"lumia-plugin-annotation\backslash.bin",
    ] {
        let fixture = PackageFixture::build(PackageOptions {
            extra_files: vec![(unsafe_path.into(), vec![1])],
            ..PackageOptions::default()
        });
        assert!(matches!(inspect(&fixture), Err(PluginPackageError::UnsafePath(_))));
    }

    let symlink = PackageFixture::build(PackageOptions {
        symlink: Some(("lumia-plugin-annotation/link".into(), "../../outside".into())),
        ..PackageOptions::default()
    });
    assert!(matches!(inspect(&symlink), Err(PluginPackageError::UnsupportedEntryType(_))));
}

#[test]
fn declared_file_and_payload_limits_are_enforced() {
    let too_large = compatible_manifest(vec![PluginPackageFile {
        path: PAYLOAD_PATH.into(),
        size: MAX_FILE_BYTES + 1,
        sha256: "a".repeat(64),
    }]);
    assert_eq!(
        validate_declarations(&too_large).unwrap_err(),
        PluginPackageError::FileTooLarge(PAYLOAD_PATH.into())
    );

    let many_files = (0..=MAX_PAYLOAD_FILES)
        .map(|index| PluginPackageFile {
            path: format!("lumia-plugin-annotation/{index}.bin"),
            size: 0,
            sha256: hex::encode(Sha256::digest([])),
        })
        .collect();
    assert_eq!(
        validate_declarations(&compatible_manifest(many_files)).unwrap_err(),
        PluginPackageError::TooManyPayloadFiles
    );
}

#[test]
fn declarations_must_lie_inside_the_install_directory_with_lowercase_digests() {
    let outside = compatible_manifest(vec![declared_file("other/plugin.bin", PAYLOAD)]);
    assert_eq!(
        validate_declarations(&outside).unwrap_err(),
        PluginPackageError::UnsafePath("other/plugin.bin".into())
    );
    let directory_itself = compatible_manifest(vec![declared_file("lumia-plugin-annotation", PAYLOAD)]);
    assert!(matches!(validate_declarations(&directory_itself), Err(PluginPackageError::UnsafePath(_))));
    let mut upper = declared_file(PAYLOAD_PATH, PAYLOAD);
    upper.sha256 = upper.sha256.to_uppercase();
    assert_eq!(
        validate_declarations(&compatible_manifest(vec![upper])).unwrap_err(),
        PluginPackageError::InvalidDigest(PAYLOAD_PATH.into())
    );
    let half = PluginPackageFile { path: "lumia-plugin-annotation/a.bin".into(), size: MAX_FILE_BYTES, sha256: "a".repeat(64) };
    let mut other_half = half.clone();
    other_half.path = "lumia-plugin-annotation/b.bin".into();
    let mut third = half.clone();
    third.path = "lumia-plugin-annotation/c.bin".into();
    assert_eq!(
        validate_declarations(&compatible_manifest(vec![half, other_half, third])).unwrap_err(),
        PluginPackageError::PayloadTooLarge
    );
}

#[test]
fn archive_paths_follow_the_package_rules() {
    assert!(validate_archive_path("lumia-plugin-annotation/plugin.bin", false).is_ok());
    assert!(validate_archive_path("lumia-plugin-annotation/", true).is_ok());
    assert!(validate_archive_path("lumia-plugin-annotation/", false).is_err());
    assert!(validate_archive_path("a/../b", false).is_err());
    assert!(validate_archive_path("a:b", false).is_err());
    assert!(validate_archive_path(&"x".repeat(241), false).is_err());
    assert!(validate_archive_path(&"x".repeat(240), false).is_ok());
    assert!(validate_archive_path("a/ends with space ", false).is_err());
}

#[test]
fn reserved_windows_names_match_their_stem_in_any_case() {
    assert!(is_windows_reserved_name("CON"));
    assert!(is_windows_reserved_name("nul.txt"));
    assert!(is_windows_reserved_name("Com1"));
    assert!(is_windows_reserved_name("lpt9.log"));
    assert!(!is_windows_reserved_name("com0"));
    assert!(!is_windows_reserved_name("console"));
}

#[test]
fn comparison_keys_ignore_case_and_trailing_slashes() {
    assert_eq!(path_comparison_key("Lumia/Plugin.BIN//"), "lumia/plugin.bin");
}

#[test]
fn only_the_projects_plugins_are_official() {
    assert!(is_official_plugin_id("lumia.annotation"));
    assert!(is_official_plugin_id("lumia.raw"));
    assert!(!is_official_plugin_id("com.example.foo"));
    assert_eq!(official_plugin_public_key().len(), 32);
}

#[test]
fn signatures_are_trimmed_base64_that_must_verify() {
    let key_pair = Ed25519KeyPair::from_seed_unchecked(&TEST_SEED).unwrap();
    let message = b"message";
    let signature = base64::engine::general_purpose::STANDARD.encode(key_pair.sign(message).as_ref());
    let public_key = key_pair.public_key().as_ref().to_vec();
    assert!(verify_ed25519_signature(&public_key, message, &format!("  {signature}\n")).is_ok());
    assert_eq!(
        verify_ed25519_signature(&public_key, b"other", &signature).unwrap_err(),
        PluginPackageError::InvalidSignature
    );
    assert_eq!(
        verify_ed25519_signature(&public_key, message, "not base64!").unwrap_err(),
        PluginPackageError::InvalidSignatureEncoding
    );
}

#[test]
fn non_zip_bytes_and_oversized_packages_are_refused() {
    assert!(matches!(
        open_signed_package(b"not a zip".to_vec(), &[0; 32]),
        Err(PluginPackageError::InvalidArchive(_))
    ));
}

#[test]
fn directory_entries_are_checked_like_their_trimmed_names() {
    for value in ["assets/", "assets//", "a/b/", "a/../", "con/", "a:b/", "x /", "./a/"] {
        let trimmed = value.trim_end_matches('/');
        assert_eq!(
            validate_archive_path(value, true).is_ok(),
            validate_archive_path(trimmed, false).is_ok(),
            "{value}"
        );
    }
}

#[test]
fn payload_files_are_read_from_the_checked_archive() {
    let fixture = PackageFixture::valid();
    let mut package = open_signed_package(fixture.bytes.clone(), &fixture.public_key()).unwrap();
    let declared = declared_file(PAYLOAD_PATH, PAYLOAD);
    assert_eq!(package.archive.read_payload_file(&declared).unwrap(), PAYLOAD.to_vec());

    let mut longer = declared.clone();
    longer.size += 1;
    assert_eq!(
        package.archive.read_payload_file(&longer),
        Err(PluginPackageError::SizeMismatch(PAYLOAD_PATH.into()))
    );
    let mut shorter = declared.clone();
    shorter.size -= 1;
    assert_eq!(
        package.archive.read_payload_file(&shorter),
        Err(PluginPackageError::SizeMismatch(PAYLOAD_PATH.into()))
    );
    let mut other_hash = declared.clone();
    other_hash.sha256 = "0".repeat(64);
    assert_eq!(
        package.archive.read_payload_file(&other_hash),
        Err(PluginPackageError::HashMismatch(PAYLOAD_PATH.into()))
    );
    let missing = declared_file("lumia-plugin-annotation/absent.bin", PAYLOAD);
    assert_eq!(
        package.archive.read_payload_file(&missing),
        Err(PluginPackageError::MissingPayload("lumia-plugin-annotation/absent.bin".into()))
    );
}

#[test]
fn accepted_declarations_are_given_by_path() {
    let manifest = compatible_manifest(vec![
        declared_file(PAYLOAD_PATH, PAYLOAD),
        declared_file("lumia-plugin-annotation/assets/icon.svg", b"<svg/>"),
    ]);
    assert_eq!(
        validate_declarations(&manifest).unwrap(),
        vec![(PAYLOAD_PATH.to_string(), 0), ("lumia-plugin-annotation/assets/icon.svg".to_string(), 1)]
    );
}
