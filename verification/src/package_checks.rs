//! The package manifest and the checks made on it: compatibility with the
//! running build and the rules every declared payload file must follow.
use vstd::prelude::*;
use crate::plugin_package::{
    archive_path_valid, path_components, path_starts_with, spec_path_comparison_key,
    validate_archive_path, validate_install_directory, PackageErrorView, PluginPackageError,
    MAX_FILE_BYTES, MAX_PAYLOAD_FILES, MAX_TOTAL_PAYLOAD_BYTES, PACKAGE_SCHEMA_VERSION,
};
use crate::versions::{parse_version, semver_less, semver_valid, version_less, SemanticVersion};

verus! {

/// One payload file a package declares.
#[derive(Debug, Clone, PartialEq, Eq)]
pub struct PluginPackageFile {
    pub path: String,
    pub size: u64,
    pub sha256: String,
}

/// The plain value of a declared payload file.
pub struct FileView {
    pub path: Seq<char>,
    pub size: u64,
    pub sha256: Seq<char>,
}

impl View for PluginPackageFile {
    type V = FileView;

    open spec fn view(&self) -> FileView {
        FileView { path: self.path@, size: self.size, sha256: self.sha256@ }
    }
}

/// The signed description of a plugin package.
#[derive(Debug, Clone, PartialEq, Eq)]
pub struct PluginPackageManifest {
    pub schema_version: u32,
    pub plugin_id: String,
    pub version: String,
    pub plugin_api_version: u32,
    pub minimum_lumia_version: String,
    pub target_os: String,
    pub target_arch: String,
    pub install_directory: String,
    pub files: Vec<PluginPackageFile>,
}

/// The plain value of a package manifest.
pub struct ManifestView {
    pub schema_version: u32,
    pub plugin_id: Seq<char>,
    pub version: Seq<char>,
    pub plugin_api_version: u32,
    pub minimum_lumia_version: Seq<char>,
    pub target_os: Seq<char>,
    pub target_arch: Seq<char>,
    pub install_directory: Seq<char>,
    pub files: Seq<FileView>,
}

impl View for PluginPackageManifest {
    type V = ManifestView;

    open spec fn view(&self) -> ManifestView {
        ManifestView {
            schema_version: self.schema_version,
            plugin_id: self.plugin_id@,
            version: self.version@,
            plugin_api_version: self.plugin_api_version,
            minimum_lumia_version: self.minimum_lumia_version@,
            target_os: self.target_os@,
            target_arch: self.target_arch@,
            install_directory: self.install_directory@,
            files: self.files@.map_values(|f: PluginPackageFile| f@),
        }
    }
}

/// The version of this build of Lumia, the one its package declares.
pub const LUMIA_VERSION: &'static str = "0.2.1";

/// What the running build offers a package: its platform, its plugin API
/// and its own version.
#[derive(Debug, Clone, PartialEq, Eq)]
pub struct HostInfo {
    pub target_os: String,
    pub target_arch: String,
    pub plugin_api_version: u32,
    pub lumia_version: String,
}

/// The plain value of the host description.
pub struct HostView {
    pub target_os: Seq<char>,
    pub target_arch: Seq<char>,
    pub plugin_api_version: u32,
    pub lumia_version: Seq<char>,
}

impl View for HostInfo {
    type V = HostView;

    open spec fn view(&self) -> HostView {
        HostView {
            target_os: self.target_os@,
            target_arch: self.target_arch@,
            plugin_api_version: self.plugin_api_version,
            lumia_version: self.lumia_version@,
        }
    }
}

/// An optional borrowed text as an optional sequence.
pub open spec fn opt_text(value: Option<&str>) -> Option<Seq<char>> {
    match value {
        Some(s) => Some(s@),
        None => None,
    }
}

/// A valid install directory: a package path of exactly one component.
pub open spec fn install_directory_valid(value: Seq<char>) -> bool {
    archive_path_valid(value, false) && path_components(value).len() == 1
}

/// The first reason, in the order the checks are made, why a package cannot
/// be installed on this host over `installed` (the version already there);
/// `None` when it can.
pub open spec fn compatibility_error(
    m: ManifestView,
    installed: Option<Seq<char>>,
    host: HostView,
) -> Option<PackageErrorView> {
    if m.schema_version != PACKAGE_SCHEMA_VERSION {
        Some(PackageErrorView::UnsupportedSchema(m.schema_version))
    } else if !install_directory_valid(m.install_directory) {
        Some(PackageErrorView::UnsafeInstallDirectory(m.install_directory))
    } else if !semver_valid(m.version) {
        Some(PackageErrorView::InvalidVersion { field: "version"@, value: m.version })
    } else if !semver_valid(m.minimum_lumia_version) {
        Some(
            PackageErrorView::InvalidVersion {
                field: "minimum_lumia_version"@,
                value: m.minimum_lumia_version,
            },
        )
    } else if !semver_valid(host.lumia_version) {
        Some(PackageErrorView::InvalidVersion { field: "Lumia version"@, value: host.lumia_version })
    } else if m.target_os != host.target_os {
        Some(
            PackageErrorView::IncompatiblePlatform {
                expected: host.target_os,
                actual: m.target_os,
            },
        )
    } else if m.target_arch != host.target_arch {
        Some(
            PackageErrorView::IncompatibleArchitecture {
                expected: host.target_arch,
                actual: m.target_arch,
            },
        )
    } else if m.plugin_api_version != host.plugin_api_version {
        Some(
            PackageErrorView::IncompatiblePluginApi {
                expected: host.plugin_api_version,
                actual: m.plugin_api_version,
            },
        )
    } else if semver_less(host.lumia_version, m.minimum_lumia_version) {
        Some(
            PackageErrorView::IncompatibleLumiaVersion {
                minimum: m.minimum_lumia_version,
                current: host.lumia_version,
            },
        )
    } else {
        match installed {
            None => None,
            Some(i) => if !semver_valid(i) {
                Some(PackageErrorView::InvalidVersion { field: "installed version"@, value: i })
            } else if semver_less(m.version, i) {
                Some(PackageErrorView::DowngradeBlocked { installed: i, package: m.version })
            } else {
                None
            },
        }
    }
}

/// Parses a version, naming the field it came from when it is invalid.
fn parse_field_version(field: &str, value: &str) -> (result: Result<SemanticVersion, PluginPackageError>)
    ensures
        result is Ok == semver_valid(value@),
        result matches Ok(v) ==> v@ == value@,
        result matches Err(e) ==> e@ == (PackageErrorView::InvalidVersion { field: field@, value: value@ }),
{
    match parse_version(value) {
        Some(v) => Ok(v),
        None => Err(
            PluginPackageError::InvalidVersion { field: field.to_owned(), value: value.to_owned() },
        ),
    }
}

/// Checks that a package can be installed on this host: the manifest
/// schema, the install directory, the versions, the platform, the plugin
/// API, the minimum Lumia version, and that it does not downgrade the
/// version already installed. Any plugin id is accepted: the signature is
/// what a package is trusted by.
pub fn validate_compatibility(
    manifest: &PluginPackageManifest,
    installed_version: Option<&str>,
    host: &HostInfo,
) -> (result: Result<(), PluginPackageError>)
    ensures
        (match compatibility_error(manifest@, opt_text(installed_version), host@) {
            None => result is Ok,
            Some(e) => result matches Err(r) && r@ == e,
        }),
{
    if manifest.schema_version != PACKAGE_SCHEMA_VERSION {
        return Err(PluginPackageError::UnsupportedSchema(manifest.schema_version));
    }
    validate_install_directory(&manifest.install_directory)?;
    let package_version = parse_field_version("version", &manifest.version)?;
    let minimum_lumia = parse_field_version(
        "minimum_lumia_version",
        &manifest.minimum_lumia_version,
    )?;
    let current_lumia = parse_field_version("Lumia version", &host.lumia_version)?;
    if !crate::text::chars_equal(
        &crate::text::chars_of(&manifest.target_os),
        &crate::text::chars_of(&host.target_os),
    ) {
        return Err(
            PluginPackageError::IncompatiblePlatform {
                expected: host.target_os.clone(),
                actual: manifest.target_os.clone(),
            },
        );
    }
    if !crate::text::chars_equal(
        &crate::text::chars_of(&manifest.target_arch),
        &crate::text::chars_of(&host.target_arch),
    ) {
        return Err(
            PluginPackageError::IncompatibleArchitecture {
                expected: host.target_arch.clone(),
                actual: manifest.target_arch.clone(),
            },
        );
    }
    if manifest.plugin_api_version != host.plugin_api_version {
        return Err(
            PluginPackageError::IncompatiblePluginApi {
                expected: host.plugin_api_version,
                actual: manifest.plugin_api_version,
            },
        );
    }
    if version_less(&current_lumia, &minimum_lumia) {
        return Err(
            PluginPackageError::IncompatibleLumiaVersion {
                minimum: manifest.minimum_lumia_version.clone(),
                current: host.lumia_version.clone(),
            },
        );
    }
    match installed_version {
        None => Ok(()),
        Some(installed) => {
            let installed_parsed = parse_field_version("installed version", installed)?;
            if version_less(&package_version, &installed_parsed) {
                Err(
                    PluginPackageError::DowngradeBlocked {
                        installed: installed.to_owned(),
                        package: manifest.version.clone(),
                    },
                )
            } else {
                Ok(())
            }
        },
    }
}

/// A lowercase hexadecimal digit.
pub open spec fn lower_hex_digit(c: char) -> bool {
    ('0' <= c && c <= '9') || ('a' <= c && c <= 'f')
}

/// A SHA-256 digest written as 64 lowercase hexadecimal digits.
pub open spec fn digest_text_valid(s: Seq<char>) -> bool {
    s.len() == 64 && forall|i: int| 0 <= i < 64 ==> lower_hex_digit(#[trigger] s[i])
}

/// The sum of the declared sizes of the first `n` files.
pub open spec fn payload_total(files: Seq<FileView>, n: int) -> int
    decreases n,
{
    if n <= 0 {
        0
    } else {
        payload_total(files, n - 1) + files[n - 1].size
    }
}

/// The collision keys of the first `n` declared paths.
pub open spec fn declared_keys(files: Seq<FileView>, n: int) -> Seq<Seq<char>> {
    files.take(n).map_values(|f: FileView| spec_path_comparison_key(f.path))
}

/// `path` names something strictly inside `directory`, by components.
pub open spec fn strictly_under(path: Seq<char>, directory: Seq<char>) -> bool {
    path_starts_with(path, directory) && path_components(path).len() > path_components(
        directory,
    ).len()
}

/// Why one declared file is refused, given the sizes and collision keys of
/// the files declared before it; `None` when it is accepted.
pub open spec fn declaration_error(
    f: FileView,
    directory: Seq<char>,
    prior_total: int,
    prior_keys: Seq<Seq<char>>,
) -> Option<PackageErrorView> {
    if !archive_path_valid(f.path, false) {
        Some(PackageErrorView::UnsafePath(f.path))
    } else if !strictly_under(f.path, directory) {
        Some(PackageErrorView::UnsafePath(f.path))
    } else if f.size > MAX_FILE_BYTES {
        Some(PackageErrorView::FileTooLarge(f.path))
    } else if prior_total + f.size > MAX_TOTAL_PAYLOAD_BYTES {
        Some(PackageErrorView::PayloadTooLarge)
    } else if !digest_text_valid(f.sha256) {
        Some(PackageErrorView::InvalidDigest(f.path))
    } else if prior_keys.contains(spec_path_comparison_key(f.path)) {
        Some(PackageErrorView::DuplicatePath(f.path))
    } else {
        None
    }
}

/// The first refusal among the first `n` declared files.
pub open spec fn declarations_error_upto(files: Seq<FileView>, directory: Seq<char>, n: int) -> Option<
    PackageErrorView,
>
    decreases n,
{
    if n <= 0 {
        None
    } else {
        match declarations_error_upto(files, directory, n - 1) {
            Some(e) => Some(e),
            None => declaration_error(
                files[n - 1],
                directory,
                payload_total(files, n - 1),
                declared_keys(files, n - 1),
            ),
        }
    }
}

/// A refusal among the first `i` files is the refusal among any longer
/// prefix.
proof fn lemma_declarations_error_kept(files: Seq<FileView>, directory: Seq<char>, i: int, n: int)
    requires
        0 <= i <= n,
        declarations_error_upto(files, directory, i) is Some,
    ensures
        declarations_error_upto(files, directory, n) == declarations_error_upto(files, directory, i),
    decreases n - i,
{
    if i < n {
        lemma_declarations_error_kept(files, directory, i, n - 1);
    }
}

/// Files accepted by the declaration checks are at most 256 MiB each.
pub proof fn lemma_accepted_sizes(files: Seq<FileView>, directory: Seq<char>, n: int)
    requires
        0 <= n <= files.len(),
        declarations_error_upto(files, directory, n) is None,
    ensures
        forall|j: int| 0 <= j < n ==> #[trigger] files[j].size <= MAX_FILE_BYTES,
    decreases n,
{
    if n > 0 {
        lemma_accepted_sizes(files, directory, n - 1);
    }
}

/// Why the declared payload of a manifest is refused; `None` when every
/// file is accepted.
pub open spec fn declarations_error(m: ManifestView) -> Option<PackageErrorView> {
    if m.files.len() > MAX_PAYLOAD_FILES {
        Some(PackageErrorView::TooManyPayloadFiles)
    } else {
        declarations_error_upto(m.files, m.install_directory, m.files.len() as int)
    }
}

/// Whether `path` lies strictly inside `directory`, by components.
fn strictly_under_exec(path: &str, directory: &str) -> (result: bool)
    ensures
        result == strictly_under(path@, directory@),
{
    if !crate::plugin_package::path_starts_with_exec(path, directory) {
        return false;
    }
    let path_parts = crate::plugin_package::components_exec(&crate::text::chars_of(path));
    let directory_parts = crate::plugin_package::components_exec(
        &crate::text::chars_of(directory),
    );
    assert(path_parts@.map_values(|c: Vec<char>| c@).len() == path_parts@.len());
    assert(directory_parts@.map_values(|c: Vec<char>| c@).len() == directory_parts@.len());
    path_parts.len() > directory_parts.len()
}

/// Whether `text` is 64 lowercase hexadecimal digits.
fn digest_text_valid_exec(text: &str) -> (result: bool)
    ensures
        result == digest_text_valid(text@),
{
    let chars = crate::text::chars_of(text);
    if chars.len() != 64 {
        return false;
    }
    let mut i: usize = 0;
    while i < 64
        invariant
            chars@ == text@,
            chars.len() == 64,
            i <= 64,
            forall|k: int| 0 <= k < i ==> lower_hex_digit(#[trigger] chars@[k]),
        decreases 64 - i,
    {
        let c = chars[i];
        if !(('0' <= c && c <= '9') || ('a' <= c && c <= 'f')) {
            assert(!lower_hex_digit(chars@[i as int]));
            return false;
        }
        i = i + 1;
    }
    true
}

/// Checks the payload files a manifest declares: at most 512 of them, each
/// path valid and strictly inside the install directory, each file at most
/// 256 MiB and all together at most 512 MiB, each digest 64 lowercase
/// hexadecimal digits, and no two paths equal once case and trailing `/`
/// are ignored. Gives the declarations by path: each declared path with
/// the position of its declaration, in order; the paths are distinct.
pub fn validate_declarations(manifest: &PluginPackageManifest) -> (result: Result<
    Vec<(String, usize)>,
    PluginPackageError,
>)
    ensures
        (match declarations_error(manifest@) {
            None => result is Ok,
            Some(e) => result matches Err(r) && r@ == e,
        }),
        result matches Ok(by_path) ==> {
            &&& by_path@.len() == manifest@.files.len()
            &&& forall|k: int|
                0 <= k < by_path@.len() ==> #[trigger] by_path@[k].0@ == manifest@.files[k].path && by_path@[k].1
                    == k
            &&& forall|a: int, b: int|
                0 <= a < b < by_path@.len() ==> #[trigger] by_path@[a].0@ != #[trigger] by_path@[b].0@
        },
{
    if manifest.files.len() > MAX_PAYLOAD_FILES {
        return Err(PluginPackageError::TooManyPayloadFiles);
    }
    let ghost files = manifest@.files;
    let ghost directory = manifest@.install_directory;
    let mut total: u64 = 0;
    let mut keys: Vec<String> = Vec::new();
    let mut by_path: Vec<(String, usize)> = Vec::new();
    let mut i: usize = 0;
    while i < manifest.files.len()
        invariant
            by_path@.len() == i,
            forall|k: int| 0 <= k < i ==> #[trigger] by_path@[k].0@ == files[k].path && by_path@[k].1 == k,
            forall|a: int, b: int| 0 <= a < b < i ==> #[trigger] by_path@[a].0@ != #[trigger] by_path@[b].0@,
            files == manifest@.files,
            directory == manifest@.install_directory,
            files.len() == manifest.files.len(),
            manifest.files.len() <= MAX_PAYLOAD_FILES,
            i <= manifest.files.len(),
            declarations_error_upto(files, directory, i as int) is None,
            total as int == payload_total(files, i as int),
            total <= MAX_TOTAL_PAYLOAD_BYTES,
            crate::text::views(keys@) == declared_keys(files, i as int),
        decreases manifest.files.len() - i,
    {
        let file = &manifest.files[i];
        assert(files[i as int] == file@);
        proof {
            if declarations_error_upto(files, directory, i + 1) is Some {
                lemma_declarations_error_kept(files, directory, i + 1, files.len() as int);
            }
        }
        if validate_archive_path(&file.path, false).is_err() {
            return Err(PluginPackageError::UnsafePath(file.path.clone()));
        }
        if !strictly_under_exec(&file.path, &manifest.install_directory) {
            return Err(PluginPackageError::UnsafePath(file.path.clone()));
        }
        if file.size > MAX_FILE_BYTES {
            return Err(PluginPackageError::FileTooLarge(file.path.clone()));
        }
        let next = total + file.size;
        if next > MAX_TOTAL_PAYLOAD_BYTES {
            return Err(PluginPackageError::PayloadTooLarge);
        }
        if !digest_text_valid_exec(&file.sha256) {
            return Err(PluginPackageError::InvalidDigest(file.path.clone()));
        }
        let key = crate::plugin_package::path_comparison_key(&file.path);
        if crate::association_formats::contains_string(&keys, &key) {
            return Err(PluginPackageError::DuplicatePath(file.path.clone()));
        }
        proof {
            assert(declared_keys(files, i + 1) =~= declared_keys(files, i as int).push(
                key@,
            ));
            assert forall|k: int| 0 <= k < i implies by_path@[k].0@ != file@.path by {
                if by_path@[k].0@ == file@.path {
                    assert(declared_keys(files, i as int)[k] == spec_path_comparison_key(files[k].path));
                    assert(crate::text::views(keys@)[k] == key@);
                    assert(crate::text::views(keys@).contains(key@));
                }
            }
        }
        let ghost before = by_path@;
        by_path.push((file.path.clone(), i));
        proof {
            assert forall|a: int, b: int| 0 <= a < b < i + 1 implies #[trigger] by_path@[a].0@ != #[trigger] by_path@[b].0@ by {
                if b < i {
                    assert(by_path@[a] == before[a] && by_path@[b] == before[b]);
                } else {
                    assert(by_path@[a] == before[a]);
                }
            }
        }
        keys.push(key);
        total = next;
        i = i + 1;
        assert(crate::text::views(keys@) =~= declared_keys(files, i as int));
    }
    Ok(by_path)
}

/// The plugin ids published by the Lumia project.
pub open spec fn spec_is_official_plugin_id(id: Seq<char>) -> bool {
    id == "lumia.annotation"@ || id == "lumia.raw"@
}

/// Whether `id` is one of the plugins published by the Lumia project.
pub fn is_official_plugin_id(id: &str) -> (result: bool)
    ensures
        result == spec_is_official_plugin_id(id@),
{
    let chars = crate::text::chars_of(id);
    crate::text::chars_equal(&chars, &crate::text::chars_of("lumia.annotation"))
        || crate::text::chars_equal(&chars, &crate::text::chars_of("lumia.raw"))
}

/// The Ed25519 public key that official packages are signed with.
pub open spec fn spec_official_public_key() -> Seq<u8> {
    seq![0x6b, 0x88, 0xde, 0x1c, 0x86, 0xa7, 0x3a, 0xe6, 0x66, 0xd4, 0xa4, 0x4b, 0x54, 0xe3, 0x04, 0x69, 0x00, 0xff, 0x24, 0xa0, 0x85, 0xa2, 0x51, 0x5a, 0xda, 0x36, 0xd2, 0xb1, 0x5c, 0xc5, 0x54, 0x17]
}

/// The Ed25519 public key that official packages are signed with.
pub fn official_plugin_public_key() -> (result: Vec<u8>)
    ensures
        result@ == spec_official_public_key(),
{
    let result: Vec<u8> = vec![0x6b, 0x88, 0xde, 0x1c, 0x86, 0xa7, 0x3a, 0xe6, 0x66, 0xd4, 0xa4, 0x4b, 0x54, 0xe3, 0x04, 0x69, 0x00, 0xff, 0x24, 0xa0, 0x85, 0xa2, 0x51, 0x5a, 0xda, 0x36, 0xd2, 0xb1, 0x5c, 0xc5, 0x54, 0x17];
    assert(result@ =~= spec_official_public_key());
    result
}

/// The outcome of checking a Base64 signature text: the text is trimmed,
/// decoded, then verified against the key and message.
pub open spec fn signature_error(public_key: Seq<u8>, message: Seq<u8>, text: Seq<char>) -> Option<
    PackageErrorView,
> {
    match crate::digest::base64_standard_decode(crate::digest::unicode_trim(text)) {
        None => Some(PackageErrorView::InvalidSignatureEncoding),
        Some(signature) => if crate::digest::ed25519_accepts(public_key, message, signature) {
            None
        } else {
            Some(PackageErrorView::InvalidSignature)
        },
    }
}

/// Checks a Base64 Ed25519 signature of `message`: text that does not
/// decode is an encoding error, a signature that does not verify is an
/// invalid signature.
pub fn verify_ed25519_signature(public_key: &[u8], message: &[u8], signature_text: &str) -> (result:
    Result<(), PluginPackageError>)
    ensures
        (match signature_error(public_key@, message@, signature_text@) {
            None => result is Ok,
            Some(e) => result matches Err(r) && r@ == e,
        }),
{
    let trimmed = crate::digest::trim(signature_text);
    match crate::digest::base64_decode(trimmed.as_str()) {
        None => Err(PluginPackageError::InvalidSignatureEncoding),
        Some(signature) => if crate::digest::ed25519_verify(public_key, message, &signature) {
            Ok(())
        } else {
            Err(PluginPackageError::InvalidSignature)
        },
    }
}

/// A package is refused for its minimum Lumia version only when this
/// build is older than that minimum: whenever the refusal is
/// `IncompatibleLumiaVersion`, the host's version is lower than the
/// package's minimum, and it names both.
pub proof fn lemma_lumia_version_refused_only_when_older(
    m: ManifestView,
    installed: Option<Seq<char>>,
    host: HostView,
)
    ensures
        compatibility_error(m, installed, host) matches Some(PackageErrorView::IncompatibleLumiaVersion { minimum, current })
            ==> semver_less(host.lumia_version, m.minimum_lumia_version) && minimum == m.minimum_lumia_version
            && current == host.lumia_version,
{
}

/// Each compatibility refusal has its cause: a platform, architecture or
/// plugin API refusal only when the package's differs from this host's
/// (naming both), an invalid version only for a value that is not a
/// semantic version, and a blocked downgrade only when the package's
/// version is lower than the installed one.
pub proof fn lemma_compatibility_refusals_have_their_cause(
    m: ManifestView,
    installed: Option<Seq<char>>,
    host: HostView,
)
    ensures
        compatibility_error(m, installed, host) matches Some(PackageErrorView::UnsupportedSchema(v)) ==> v
            == m.schema_version && m.schema_version != 1,
        compatibility_error(m, installed, host) matches Some(PackageErrorView::IncompatiblePlatform { expected, actual })
            ==> expected == host.target_os && actual == m.target_os && expected != actual,
        compatibility_error(m, installed, host) matches Some(PackageErrorView::IncompatibleArchitecture { expected, actual })
            ==> expected == host.target_arch && actual == m.target_arch && expected != actual,
        compatibility_error(m, installed, host) matches Some(PackageErrorView::IncompatiblePluginApi { expected, actual })
            ==> expected == host.plugin_api_version && actual == m.plugin_api_version && expected != actual,
        compatibility_error(m, installed, host) matches Some(PackageErrorView::InvalidVersion { field, value }) ==> !semver_valid(value),
        compatibility_error(m, installed, host) matches Some(PackageErrorView::DowngradeBlocked { installed: i, package })
            ==> installed == Some(i) && package == m.version && semver_less(m.version, i),
        compatibility_error(m, installed, host) matches Some(PackageErrorView::UnsafeInstallDirectory(d)) ==> d
            == m.install_directory && !install_directory_valid(d),
{
}

/// A package made for this host is accepted by a build at least as new as
/// its minimum Lumia version: with schema 1, a one-component install
/// directory, valid versions, this host's platform and plugin API, nothing
/// installed, and the host's version not below the minimum, there is no
/// refusal.
pub proof fn lemma_newer_host_accepts_package(m: ManifestView, host: HostView)
    requires
        m.schema_version == 1,
        install_directory_valid(m.install_directory),
        semver_valid(m.version),
        semver_valid(m.minimum_lumia_version),
        semver_valid(host.lumia_version),
        m.target_os == host.target_os,
        m.target_arch == host.target_arch,
        m.plugin_api_version == host.plugin_api_version,
        !semver_less(host.lumia_version, m.minimum_lumia_version),
    ensures
        compatibility_error(m, None, host) is None,
{
}

} // verus!
