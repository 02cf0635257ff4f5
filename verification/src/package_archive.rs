//! The ZIP archive of a plugin package, read with the `zip` crate: the
//! entries it lists, the metadata files, the signature over the manifest,
//! and the payload checked against the manifest's declarations.
use std::io::Read as _;
use vstd::prelude::*;
use crate::package_checks::{
    declarations_error, signature_error, verify_ed25519_signature, FileView, ManifestView,
    PluginPackageManifest,
};
use crate::plugin_package::{
    archive_path_valid, path_starts_with, spec_path_comparison_key, PackageErrorView,
    PluginPackageError, MAX_ARCHIVE_ENTRIES, MAX_COMPRESSED_PACKAGE_BYTES, MAX_FILE_BYTES,
    MAX_METADATA_BYTES,
};

verus! {

/// `zip::ZipArchive`, held opaque.
#[verifier::external_type_specification]
#[verifier::external_body]
#[verifier::reject_recursive_types(R)]
pub struct ExZipArchive<R>(zip::ZipArchive<R>);

/// `std::io::Cursor`, held opaque.
#[verifier::external_type_specification]
#[verifier::external_body]
#[verifier::reject_recursive_types(T)]
pub struct ExCursor<T>(std::io::Cursor<T>);

/// The entries an archive lists, in its order. Each entry is: its name;
/// whether the crate opens it (`by_index` succeeds); whether it is
/// encrypted; whether it is a symbolic link; its uncompressed size as
/// recorded; its data, the bytes its stored stream decodes to, up to its
/// end or to where it stops decoding; and whether it decodes to its end
/// and passes its checksum.
pub uninterp spec fn zip_entries(archive: zip::ZipArchive<std::io::Cursor<Vec<u8>>>) -> Seq<
    (Seq<char>, bool, bool, bool, u64, Seq<u8>, bool),
>;

/// The entries of the archive that `zip::ZipArchive::new` reads from
/// `bytes`, or `None` when it cannot read them as a ZIP archive.
pub uninterp spec fn zip_listing(bytes: Seq<u8>) -> Option<
    Seq<(Seq<char>, bool, bool, bool, u64, Seq<u8>, bool)>,
>;

/// No two entries share a name.
pub open spec fn names_distinct(entries: Seq<(Seq<char>, bool, bool, bool, u64, Seq<u8>, bool)>) -> bool {
    forall|i: int, j: int|
        0 <= i < entries.len() && 0 <= j < entries.len() && i != j ==> #[trigger] entries[i].0
            != #[trigger] entries[j].0
}

/// A directory entry's name, as the `zip` crate reads it: one that ends in
/// `/` or `\`.
pub open spec fn zip_dir_name(name: Seq<char>) -> bool {
    name.len() > 0 && (name.last() == '/' || name.last() == '\\')
}

/// Opens an archive held in memory with `zip::ZipArchive::new`. Trusted:
/// on success the archive lists `zip_listing` of the bytes, and its entry
/// names are distinct (the crate keys entries by name); on failure
/// `zip_listing` is `None`. The message is the crate's error text.
#[verifier::external_body]
fn zip_open(bytes: Vec<u8>) -> (result: Result<zip::ZipArchive<std::io::Cursor<Vec<u8>>>, String>)
    ensures
        (match result {
            Ok(archive) => zip_listing(bytes@) == Some(zip_entries(archive)) && names_distinct(
                zip_entries(archive),
            ),
            Err(_) => zip_listing(bytes@) is None,
        }),
{
    zip::ZipArchive::new(std::io::Cursor::new(bytes)).map_err(|error| error.to_string())
}

/// Counts entries with `zip::ZipArchive::len`. Trusted: the number of
/// entries listed.
#[verifier::external_body]
fn zip_len(archive: &zip::ZipArchive<std::io::Cursor<Vec<u8>>>) -> (result: usize)
    ensures
        result == zip_entries(*archive).len(),
{
    archive.len()
}

/// Finds an entry by name with `zip::ZipArchive::index_for_name`. Trusted:
/// the index of the entry with that name, or `None` when no entry has it.
#[verifier::external_body]
fn zip_index_for_name(archive: &zip::ZipArchive<std::io::Cursor<Vec<u8>>>, name: &str) -> (result:
    Option<usize>)
    ensures
        (match result {
            Some(i) => i < zip_entries(*archive).len() && zip_entries(*archive)[i as int].0 == name@,
            None => forall|i: int|
                0 <= i < zip_entries(*archive).len() ==> #[trigger] zip_entries(*archive)[i].0
                    != name@,
        }),
{
    archive.index_for_name(name)
}

/// What an archive records of one entry.
pub struct EntryHeader {
    pub name: String,
    pub is_dir: bool,
    pub is_file: bool,
    pub is_symlink: bool,
    pub encrypted: bool,
    pub size: u64,
}

/// Opens entry `index` with `zip::ZipArchive::by_index` and reads its
/// header. Trusted: it succeeds exactly when the entry opens, and then
/// gives the entry's name, encryption, link flag and size, `is_dir` when
/// the name ends in `/` or `\`, and `is_file` when it is neither a
/// directory nor a link, as the crate's source computes them. The entries
/// are unchanged; the message is the crate's error text.
#[verifier::external_body]
fn zip_entry_header(archive: &mut zip::ZipArchive<std::io::Cursor<Vec<u8>>>, index: usize) -> (result:
    Result<EntryHeader, String>)
    requires
        index < zip_entries(*old(archive)).len(),
    ensures
        zip_entries(*final(archive)) == zip_entries(*old(archive)),
        (match result {
            Ok(h) => {
                let e = zip_entries(*old(archive))[index as int];
                &&& e.1
                &&& h.name@ == e.0
                &&& h.encrypted == e.2
                &&& h.is_symlink == e.3
                &&& h.size == e.4
                &&& h.is_dir == zip_dir_name(e.0)
                &&& h.is_file == (!h.is_dir && !h.is_symlink)
            },
            Err(_) => !zip_entries(*old(archive))[index as int].1,
        }),
{
    let entry = archive.by_index(index).map_err(|error| error.to_string())?;
    Ok(
        EntryHeader {
            name: entry.name().to_owned(),
            is_dir: entry.is_dir(),
            is_file: entry.is_file(),
            is_symlink: entry.is_symlink(),
            encrypted: entry.encrypted(),
            size: entry.size(),
        },
    )
}

/// Reads entry `index` to its end with `zip::ZipArchive::by_index` and
/// `Read::read_to_end`. Trusted: it succeeds with the entry's data exactly
/// when the entry opens and its data decodes to its end with a matching
/// checksum (the crate checks it at the end). The entries are unchanged;
/// the message is the error's text.
#[verifier::external_body]
fn zip_read_entry_to_end(
    archive: &mut zip::ZipArchive<std::io::Cursor<Vec<u8>>>,
    index: usize,
) -> (result: Result<Vec<u8>, String>)
    requires
        index < zip_entries(*old(archive)).len(),
    ensures
        zip_entries(*final(archive)) == zip_entries(*old(archive)),
        ({
            let e = zip_entries(*old(archive))[index as int];
            match result {
                Ok(bytes) => e.1 && e.6 && bytes@ == e.5,
                Err(_) => !e.1 || !e.6,
            }
        }),
{
    let mut entry = archive.by_index(index).map_err(|error| error.to_string())?;
    let mut bytes = Vec::new();
    entry.read_to_end(&mut bytes).map_err(|error| error.to_string())?;
    Ok(bytes)
}

/// Reads at most `limit` bytes of entry `index` with
/// `zip::ZipArchive::by_index`, `Read::take` and `Read::read_to_end`.
/// Trusted: what comes back is a start of the entry's data, at most
/// `limit` bytes long, and all of it, decoded cleanly, when it is shorter
/// than `limit`; a read fails only when the entry does not open or its
/// data goes bad. Whether a read of an entry whose data goes bad past
/// `limit` bytes fails or gives `limit` bytes is left open: that depends on
/// how the decoder's reads fall. The entries are unchanged; the message is
/// the error's text.
#[verifier::external_body]
fn zip_read_entry(
    archive: &mut zip::ZipArchive<std::io::Cursor<Vec<u8>>>,
    index: usize,
    limit: u64,
) -> (result: Result<Vec<u8>, String>)
    requires
        index < zip_entries(*old(archive)).len(),
    ensures
        zip_entries(*final(archive)) == zip_entries(*old(archive)),
        ({
            let e = zip_entries(*old(archive))[index as int];
            match result {
                Ok(bytes) => e.1 && bytes@.len() <= limit && bytes@.len() <= e.5.len() && bytes@ == e.5.take(
                bytes@.len() as int,
                ) && (
                bytes@.len() < limit ==> e.6 && bytes@ == e.5),
                Err(_) => !e.1 || !e.6,
            }
        }),
{
    let entry = archive.by_index(index).map_err(|error| error.to_string())?;
    let mut bytes = Vec::new();
    entry.take(limit).read_to_end(&mut bytes).map_err(|error| error.to_string())?;
    Ok(bytes)
}

/// One listed entry: name, opens, encrypted, link, size, bytes, clean end.
pub type ZipEntry = (Seq<char>, bool, bool, bool, u64, Seq<u8>, bool);

/// The name of the signed package manifest inside an archive.
pub open spec fn manifest_entry_name() -> Seq<char> {
    "lumia.package.json"@
}

/// The name of the manifest's signature inside an archive.
pub open spec fn signature_entry_name() -> Seq<char> {
    "lumia.package.sig"@
}

/// A package archive held in memory.
pub struct PackageArchive {
    archive: zip::ZipArchive<std::io::Cursor<Vec<u8>>>,
}

impl View for PackageArchive {
    type V = Seq<ZipEntry>;

    closed spec fn view(&self) -> Seq<ZipEntry> {
        zip_entries(self.archive)
    }
}


/// `actual` is the error `expected` describes; for archive and read
/// failures only the kind is fixed, since their text comes from the
/// failing crate.
pub open spec fn error_matches(actual: PackageErrorView, expected: PackageErrorView) -> bool {
    match expected {
        PackageErrorView::InvalidArchive(_) => actual is InvalidArchive,
        PackageErrorView::Io(_) => actual is Io,
        _ => actual == expected,
    }
}

/// `result` fails exactly as `expected` says, or succeeds when it says
/// nothing.
pub open spec fn outcome_matches<T>(result: Result<T, PluginPackageError>, expected: Option<PackageErrorView>) -> bool {
    match expected {
        None => result is Ok,
        Some(e) => result matches Err(r) && error_matches(r@, e),
    }
}

/// The outcome of opening package bytes: too large, not a ZIP archive, or
/// the entries listed.
pub open spec fn open_outcome(bytes: Seq<u8>) -> Result<Seq<ZipEntry>, PackageErrorView> {
    if bytes.len() > MAX_COMPRESSED_PACKAGE_BYTES {
        Err(PackageErrorView::PackageTooLarge)
    } else {
        match zip_listing(bytes) {
            None => Err(PackageErrorView::InvalidArchive(Seq::empty())),
            Some(entries) => Ok(entries),
        }
    }
}

/// Opens the bytes of a package file as a ZIP archive, refusing files over
/// 128 MiB.
pub fn open_package_archive(bytes: Vec<u8>) -> (result: Result<PackageArchive, PluginPackageError>)
    ensures
        (match open_outcome(bytes@) {
            Ok(entries) => result matches Ok(a) && a@ == entries && names_distinct(a@),
            Err(e) => result matches Err(r) && error_matches(r@, e),
        }),
{
    if bytes.len() as u64 > MAX_COMPRESSED_PACKAGE_BYTES {
        return Err(PluginPackageError::PackageTooLarge);
    }
    match zip_open(bytes) {
        Ok(archive) => Ok(PackageArchive { archive }),
        Err(message) => Err(PluginPackageError::InvalidArchive(message)),
    }
}

/// The collision keys of the names of the first `n` entries.
pub open spec fn entry_keys(entries: Seq<ZipEntry>, n: int) -> Seq<Seq<char>> {
    entries.take(n).map_values(|e: ZipEntry| spec_path_comparison_key(e.0))
}

/// Why one entry is refused, given the keys of the entries before it:
/// it does not open, its name is not a valid package path, it collides
/// with an earlier name, it is encrypted, or it is a link or neither a
/// file nor a directory.
pub open spec fn entry_error(e: ZipEntry, prior_keys: Seq<Seq<char>>) -> Option<PackageErrorView> {
    let is_dir = zip_dir_name(e.0);
    let is_file = !is_dir && !e.3;
    if !e.1 {
        Some(PackageErrorView::InvalidArchive(Seq::empty()))
    } else if !archive_path_valid(e.0, is_dir) {
        Some(PackageErrorView::UnsafePath(e.0))
    } else if prior_keys.contains(spec_path_comparison_key(e.0)) {
        Some(PackageErrorView::DuplicatePath(e.0))
    } else if e.2 {
        Some(PackageErrorView::EncryptedEntry(e.0))
    } else if e.3 || (!is_dir && !is_file) {
        Some(PackageErrorView::UnsupportedEntryType(e.0))
    } else {
        None
    }
}

/// The first refusal among the first `n` entries.
pub open spec fn entries_error_upto(entries: Seq<ZipEntry>, n: int) -> Option<PackageErrorView>
    decreases n,
{
    if n <= 0 {
        None
    } else {
        match entries_error_upto(entries, n - 1) {
            Some(e) => Some(e),
            None => entry_error(entries[n - 1], entry_keys(entries, n - 1)),
        }
    }
}

/// Why the entries of an archive are refused; `None` when all pass.
pub open spec fn entries_error(entries: Seq<ZipEntry>) -> Option<PackageErrorView> {
    if entries.len() > MAX_ARCHIVE_ENTRIES {
        Some(PackageErrorView::TooManyEntries)
    } else {
        entries_error_upto(entries, entries.len() as int)
    }
}

/// A refusal among the first `i` entries is the refusal among any longer
/// prefix.
proof fn lemma_entries_error_kept(entries: Seq<ZipEntry>, i: int, n: int)
    requires
        0 <= i <= n,
        entries_error_upto(entries, i) is Some,
    ensures
        entries_error_upto(entries, n) == entries_error_upto(entries, i),
    decreases n - i,
{
    if i < n {
        lemma_entries_error_kept(entries, i, n - 1);
    }
}

impl PackageArchive {
    /// Checks every entry of the archive: at most 576 entries, each one
    /// opens, has a valid package path, does not collide with an earlier
    /// one by case or trailing `/`, is not encrypted, and is a plain file
    /// or a directory.
    pub fn validate_archive_entries(&mut self) -> (result: Result<(), PluginPackageError>)
        ensures
            final(self)@ == old(self)@,
            outcome_matches(result, entries_error(old(self)@)),
    {
        let count = zip_len(&self.archive);
        if count > MAX_ARCHIVE_ENTRIES {
            return Err(PluginPackageError::TooManyEntries);
        }
        let ghost entries = self@;
        let mut keys: Vec<String> = Vec::new();
        let mut index: usize = 0;
        while index < count
            invariant
                self@ == entries,
                entries == old(self)@,
                count == entries.len(),
                count <= MAX_ARCHIVE_ENTRIES,
                index <= count,
                entries_error_upto(entries, index as int) is None,
                crate::text::views(keys@) == entry_keys(entries, index as int),
            decreases count - index,
        {
            proof {
                if entries_error_upto(entries, index + 1) is Some {
                    lemma_entries_error_kept(entries, index + 1, entries.len() as int);
                }
            }
            let header = match zip_entry_header(&mut self.archive, index) {
                Ok(h) => h,
                Err(message) => {
                    return Err(PluginPackageError::InvalidArchive(message));
                },
            };
            let name = header.name;
            if crate::plugin_package::validate_archive_path(&name, header.is_dir).is_err() {
                return Err(PluginPackageError::UnsafePath(name));
            }
            let key = crate::plugin_package::path_comparison_key(&name);
            if crate::association_formats::contains_string(&keys, &key) {
                return Err(PluginPackageError::DuplicatePath(name));
            }
            if header.encrypted {
                return Err(PluginPackageError::EncryptedEntry(name));
            }
            if header.is_symlink || (!header.is_dir && !header.is_file) {
                return Err(PluginPackageError::UnsupportedEntryType(name));
            }
            proof {
                assert(entry_keys(entries, index + 1) =~= entry_keys(entries, index as int).push(
                    key@,
                ));
            }
            keys.push(key);
            index = index + 1;
            assert(crate::text::views(keys@) =~= entry_keys(entries, index as int));
        }
        Ok(())
    }
}

/// `result` is the bytes or the error that `expected` describes.
pub open spec fn bytes_outcome_matches(
    result: Result<Vec<u8>, PluginPackageError>,
    expected: Result<Seq<u8>, PackageErrorView>,
) -> bool {
    match expected {
        Ok(bytes) => result matches Ok(b) && b@ == bytes,
        Err(e) => result matches Err(r) && error_matches(r@, e),
    }
}

/// Reading the metadata file `name`: missing when no entry has that name
/// or it does not open, too large over 1 MiB as recorded, a read failure
/// when reading it fails, and otherwise its bytes.
pub open spec fn metadata_outcome(entries: Seq<ZipEntry>, name: Seq<char>) -> Result<
    Seq<u8>,
    PackageErrorView,
> {
    if exists|i: int| 0 <= i < entries.len() && #[trigger] entries[i].0 == name {
        let i = choose|i: int| 0 <= i < entries.len() && #[trigger] entries[i].0 == name;
        let e = entries[i];
        if !e.1 {
            Err(PackageErrorView::MissingMetadata(name))
        } else if e.4 > MAX_METADATA_BYTES {
            Err(PackageErrorView::MetadataTooLarge(name))
        } else if !e.6 {
            Err(PackageErrorView::Io(Seq::empty()))
        } else {
            Ok(e.5)
        }
    } else {
        Err(PackageErrorView::MissingMetadata(name))
    }
}

/// The signed manifest of an archive: the manifest and signature files
/// are read, the signature must be UTF-8 Base64 text, and it must verify
/// over the manifest's bytes under `public_key`.
pub open spec fn signed_manifest_outcome(entries: Seq<ZipEntry>, public_key: Seq<u8>) -> Result<
    Seq<u8>,
    PackageErrorView,
> {
    match metadata_outcome(entries, manifest_entry_name()) {
        Err(e) => Err(e),
        Ok(manifest) => match metadata_outcome(entries, signature_entry_name()) {
            Err(e) => Err(e),
            Ok(signature) => match crate::digest::utf8_text(signature) {
                None => Err(PackageErrorView::InvalidSignatureEncoding),
                Some(text) => match signature_error(public_key, manifest, text) {
                    Some(e) => Err(e),
                    None => Ok(manifest),
                },
            },
        },
    }
}

impl PackageArchive {
    /// Reads one metadata file of the archive by name.
    pub fn read_metadata(&mut self, name: &str) -> (result: Result<Vec<u8>, PluginPackageError>)
        requires
            names_distinct(old(self)@),
        ensures
            final(self)@ == old(self)@,
            bytes_outcome_matches(result, metadata_outcome(old(self)@, name@)),
    {
        let ghost entries = self@;
        let index = match zip_index_for_name(&self.archive, name) {
            Some(i) => i,
            None => {
                return Err(PluginPackageError::MissingMetadata(name.to_owned()));
            },
        };
        proof {
            let chosen = choose|i: int| 0 <= i < entries.len() && #[trigger] entries[i].0 == name@;
            assert(entries[index as int].0 == name@);
            assert(chosen == index as int);
        }
        let header = match zip_entry_header(&mut self.archive, index) {
            Ok(h) => h,
            Err(_) => {
                return Err(PluginPackageError::MissingMetadata(name.to_owned()));
            },
        };
        if header.size > MAX_METADATA_BYTES {
            return Err(PluginPackageError::MetadataTooLarge(name.to_owned()));
        }
        match zip_read_entry_to_end(&mut self.archive, index) {
            Ok(bytes) => Ok(bytes),
            Err(message) => Err(PluginPackageError::Io(message)),
        }
    }

    /// Reads the package manifest and its signature and checks the
    /// signature under `public_key`; gives the manifest's bytes.
    pub fn read_signed_manifest(&mut self, public_key: &[u8]) -> (result: Result<
        Vec<u8>,
        PluginPackageError,
    >)
        requires
            names_distinct(old(self)@),
        ensures
            final(self)@ == old(self)@,
            bytes_outcome_matches(result, signed_manifest_outcome(old(self)@, public_key@)),
    {
        let manifest = self.read_metadata("lumia.package.json")?;
        let signature = self.read_metadata("lumia.package.sig")?;
        let text = match crate::digest::utf8_decode(&signature) {
            Some(t) => t,
            None => {
                return Err(PluginPackageError::InvalidSignatureEncoding);
            },
        };
        verify_ed25519_signature(public_key, &manifest, text.as_str())?;
        Ok(manifest)
    }
}

/// Entries the payload check passes over: the two metadata files and
/// directories.
pub open spec fn skipped_entry(name: Seq<char>) -> bool {
    name == manifest_entry_name() || name == signature_entry_name() || zip_dir_name(name)
}

/// The first declared file, from index `i` on, whose path is `name`.
pub open spec fn declared_index(files: Seq<FileView>, name: Seq<char>, i: int) -> Option<int>
    decreases files.len() - i,
{
    if i < 0 || i >= files.len() {
        None
    } else if files[i].path == name {
        Some(i)
    } else {
        declared_index(files, name, i + 1)
    }
}

/// Why one archive entry does not match the manifest: it does not open;
/// it lies outside the install directory or is not declared; its recorded
/// size differs from the declared one; it yields more or fewer bytes than
/// declared; reading it fails; or its SHA-256 differs from the declared
/// digest. Metadata files and directories pass.
pub open spec fn payload_entry_error(e: ZipEntry, m: ManifestView) -> Option<PackageErrorView> {
    if !e.1 {
        Some(PackageErrorView::InvalidArchive(Seq::empty()))
    } else if skipped_entry(e.0) {
        None
    } else if !path_starts_with(e.0, m.install_directory) {
        Some(PackageErrorView::UnexpectedPayload(e.0))
    } else {
        match declared_index(m.files, e.0, 0) {
            None => Some(PackageErrorView::UnexpectedPayload(e.0)),
            Some(j) => {
                let d = m.files[j];
                if e.4 != d.size {
                    Some(PackageErrorView::SizeMismatch(e.0))
                } else if e.5.len() > d.size {
                    Some(PackageErrorView::SizeMismatch(e.0))
                } else if !e.6 {
                    Some(PackageErrorView::Io(Seq::empty()))
                } else if e.5.len() != d.size {
                    Some(PackageErrorView::SizeMismatch(e.0))
                } else if crate::digest::sha256_hex(e.5) != d.sha256 {
                    Some(PackageErrorView::HashMismatch(e.0))
                } else {
                    None
                }
            },
        }
    }
}

/// The first mismatch among the first `n` entries.
pub open spec fn payload_error_upto(entries: Seq<ZipEntry>, m: ManifestView, n: int) -> Option<
    PackageErrorView,
>
    decreases n,
{
    if n <= 0 {
        None
    } else {
        match payload_error_upto(entries, m, n - 1) {
            Some(e) => Some(e),
            None => payload_entry_error(entries[n - 1], m),
        }
    }
}

/// A mismatch among the first `i` entries is the mismatch among any
/// longer prefix.
proof fn lemma_payload_error_kept(entries: Seq<ZipEntry>, m: ManifestView, i: int, n: int)
    requires
        0 <= i <= n,
        payload_error_upto(entries, m, i) is Some,
    ensures
        payload_error_upto(entries, m, n) == payload_error_upto(entries, m, i),
    decreases n - i,
{
    if i < n {
        lemma_payload_error_kept(entries, m, i, n - 1);
    }
}

/// Whether reading entry `e` for the payload check may fail instead of
/// showing that its data runs past the declared size: it is a declared
/// payload file of the recorded size whose data is longer than declared
/// and goes bad.
pub open spec fn entry_read_may_fail(e: ZipEntry, m: ManifestView) -> bool {
    &&& e.1
    &&& !skipped_entry(e.0)
    &&& path_starts_with(e.0, m.install_directory)
    &&& declared_index(m.files, e.0, 0) matches Some(j) && e.4 == m.files[j].size && e.5.len() > m.files[j].size
    &&& !e.6
}

/// The first mismatch among the first `n` entries is at an entry whose
/// read may fail instead: a read failure may then be reported in place of
/// its size mismatch.
pub open spec fn payload_read_may_fail_upto(entries: Seq<ZipEntry>, m: ManifestView, n: int) -> bool
    decreases n,
{
    if n <= 0 {
        false
    } else if payload_error_upto(entries, m, n - 1) is Some {
        payload_read_may_fail_upto(entries, m, n - 1)
    } else {
        entry_read_may_fail(entries[n - 1], m)
    }
}

/// Once a mismatch is found, whether its read may fail stays as it is.
proof fn lemma_read_may_fail_kept(entries: Seq<ZipEntry>, m: ManifestView, i: int, n: int)
    requires
        0 <= i <= n,
        payload_error_upto(entries, m, i) is Some,
    ensures
        payload_read_may_fail_upto(entries, m, n) == payload_read_may_fail_upto(entries, m, i),
    decreases n - i,
{
    if i < n {
        lemma_read_may_fail_kept(entries, m, i, n - 1);
        lemma_payload_error_kept(entries, m, i, n - 1);
    }
}

/// A declared index is in bounds and names a file with that path.
proof fn lemma_declared_index(files: Seq<FileView>, name: Seq<char>, i: int)
    ensures
        declared_index(files, name, i) matches Some(j) ==> i <= j < files.len() && files[j].path
            == name,
    decreases files.len() - i,
{
    if 0 <= i < files.len() && files[i].path != name {
        lemma_declared_index(files, name, i + 1);
    }
}

/// Some entry among the first `n`, not passed over, is named `path`.
pub open spec fn payload_found(entries: Seq<ZipEntry>, n: int, path: Seq<char>) -> bool {
    exists|i: int| 0 <= i < n && !skipped_entry(entries[i].0) && #[trigger] entries[i].0 == path
}

/// Finds the first declared file whose path is `name`.
fn find_declared(files: &Vec<crate::package_checks::PluginPackageFile>, name: &str) -> (result:
    Option<usize>)
    ensures
        (match declared_index(files@.map_values(|f: crate::package_checks::PluginPackageFile| f@), name@, 0) {
            Some(j) => result == Some(j as usize) && 0 <= j < files.len(),
            None => result is None,
        }),
{
    proof {
        lemma_declared_index(files@.map_values(|f: crate::package_checks::PluginPackageFile| f@), name@, 0);
    }
    let ghost views = files@.map_values(|f: crate::package_checks::PluginPackageFile| f@);
    let key = crate::text::chars_of(name);
    let mut i: usize = 0;
    while i < files.len()
        invariant
            views == files@.map_values(|f: crate::package_checks::PluginPackageFile| f@),
            key@ == name@,
            i <= files.len(),
            declared_index(views, name@, 0) == declared_index(views, name@, i as int),
        decreases files.len() - i,
    {
        assert(views[i as int] == files@[i as int]@);
        if crate::text::chars_equal(&crate::text::chars_of(&files[i].path), &key) {
            return Some(i);
        }
        i = i + 1;
    }
    None
}

/// What checking the payload finds: the first mismatching entry, in
/// archive order; or, when every entry matches, whether every declared
/// file was found among the entries.
pub open spec fn payload_complete(entries: Seq<ZipEntry>, m: ManifestView) -> bool {
    forall|j: int| 0 <= j < m.files.len() ==> payload_found(entries, entries.len() as int, #[trigger] m.files[j].path)
}

impl PackageArchive {
    /// Checks every payload entry of the archive against the declarations
    /// of an accepted manifest, in archive order, then that every declared
    /// file was found. Which missing file is named, when several are, is
    /// left open; and when the first mismatch is a file whose data runs
    /// past its declared size and then goes bad, a read failure may be
    /// reported in its place.
    pub fn verify_payload(&mut self, manifest: &PluginPackageManifest) -> (result: Result<
        (),
        PluginPackageError,
    >)
        requires
            declarations_error(manifest@) is None,
        ensures
            final(self)@ == old(self)@,
            (match payload_error_upto(old(self)@, manifest@, old(self)@.len() as int) {
                Some(e) => result matches Err(r) && (error_matches(r@, e) || (payload_read_may_fail_upto(
                    old(self)@,
                    manifest@,
                    old(self)@.len() as int,
                ) && r@ is Io)),
                None => {
                    &&& (result is Ok <==> payload_complete(old(self)@, manifest@))
                    &&& (result matches Err(r) ==> exists|j: int|
                        0 <= j < manifest@.files.len() && r@ == PackageErrorView::MissingPayload(
                            #[trigger] manifest@.files[j].path,
                        ) && !payload_found(old(self)@, old(self)@.len() as int, manifest@.files[j].path))
                },
            }),
    {
        let ghost entries = self@;
        let ghost m = manifest@;
        proof {
            crate::package_checks::lemma_accepted_sizes(m.files, m.install_directory, m.files.len() as int);
        }
        let count = zip_len(&self.archive);
        let mut found: Vec<String> = Vec::new();
        let mut index: usize = 0;
        while index < count
            invariant
                self@ == entries,
                entries == old(self)@,
                m == manifest@,
                count == entries.len(),
                index <= count,
                forall|j: int| 0 <= j < m.files.len() ==> #[trigger] m.files[j].size <= MAX_FILE_BYTES,
                payload_error_upto(entries, m, index as int) is None,
                forall|p: Seq<char>| crate::text::views(found@).contains(p) <==> payload_found(entries, index as int, p),
            decreases count - index,
        {
            proof {
                if payload_error_upto(entries, m, index + 1) is Some {
                    lemma_payload_error_kept(entries, m, index + 1, entries.len() as int);
                }
            }
            let ghost e = entries[index as int];
            let header = match zip_entry_header(&mut self.archive, index) {
                Ok(h) => h,
                Err(message) => {
                    return Err(PluginPackageError::InvalidArchive(message));
                },
            };
            let name = header.name;
            let name_chars = crate::text::chars_of(&name);
            let skipped = crate::text::chars_equal(&name_chars, &crate::text::chars_of("lumia.package.json"))
                || crate::text::chars_equal(&name_chars, &crate::text::chars_of("lumia.package.sig"))
                || header.is_dir;
            if skipped {
                proof {
                    assert(skipped_entry(entries[index as int].0));
                    assert forall|p: Seq<char>| crate::text::views(found@).contains(p) <==> payload_found(entries, index + 1, p) by {
                        if payload_found(entries, index + 1, p) {
                            let i = choose|i: int| 0 <= i < index + 1 && !skipped_entry(entries[i].0) && #[trigger] entries[i].0 == p;
                            assert(i != index as int);
                            assert(payload_found(entries, index as int, p));
                        }
                        if crate::text::views(found@).contains(p) {
                            assert(payload_found(entries, index as int, p));
                            let i = choose|i: int| 0 <= i < index && !skipped_entry(entries[i].0) && #[trigger] entries[i].0 == p;
                            assert(0 <= i < index + 1 && !skipped_entry(entries[i].0) && entries[i].0 == p);
                        }
                    }
                }
                index = index + 1;
                continue;
            }
            if !crate::plugin_package::path_starts_with_exec(&name, &manifest.install_directory) {
                return Err(PluginPackageError::UnexpectedPayload(name));
            }
            let j = match find_declared(&manifest.files, &name) {
                Some(j) => j,
                None => {
                    return Err(PluginPackageError::UnexpectedPayload(name));
                },
            };
            let declared = &manifest.files[j];
            assert(m.files[j as int] == declared@);
            if header.size != declared.size {
                return Err(PluginPackageError::SizeMismatch(name));
            }
            proof {
                lemma_declared_index(m.files, e.0, 0);
            }
            let bytes = match zip_read_entry(&mut self.archive, index, declared.size + 1) {
                Ok(b) => b,
                Err(message) => {
                    proof {
                        lemma_read_may_fail_kept(entries, m, index + 1, entries.len() as int);
                    }
                    return Err(PluginPackageError::Io(message));
                },
            };
            proof {
                if bytes@.len() == declared.size + 1 {
                    assert(e.5.len() >= bytes@.len());
                } else {
                    assert(e.6 && bytes@ == e.5);
                }
            }
            if bytes.len() as u64 != declared.size {
                return Err(PluginPackageError::SizeMismatch(name));
            }
            let digest = crate::digest::sha256_hex_exec(&bytes);
            if !crate::text::chars_equal(&crate::text::chars_of(&digest), &crate::text::chars_of(&declared.sha256)) {
                return Err(PluginPackageError::HashMismatch(name));
            }
            proof {
                let ghost before = crate::text::views(found@);
                let ghost after = crate::text::views(found@.push(name));
                assert(after =~= before.push(name@));
                assert(!skipped_entry(entries[index as int].0));
                assert forall|p: Seq<char>| after.contains(p) <==> payload_found(entries, index + 1, p) by {
                    if after.contains(p) {
                        let k = choose|k: int| 0 <= k < after.len() && after[k] == p;
                        if k < before.len() {
                            assert(before[k] == p);
                            assert(before.contains(p));
                            assert(payload_found(entries, index as int, p));
                            let i = choose|i: int| 0 <= i < index && !skipped_entry(entries[i].0) && #[trigger] entries[i].0 == p;
                            assert(0 <= i < index + 1 && !skipped_entry(entries[i].0) && entries[i].0 == p);
                        } else {
                            assert(p == name@);
                            assert(0 <= index < index + 1 && !skipped_entry(entries[index as int].0) && entries[index as int].0 == p);
                        }
                    }
                    if payload_found(entries, index + 1, p) {
                        let i = choose|i: int| 0 <= i < index + 1 && !skipped_entry(entries[i].0) && #[trigger] entries[i].0 == p;
                        if i < index {
                            assert(payload_found(entries, index as int, p));
                            assert(before.contains(p));
                            let k = choose|k: int| 0 <= k < before.len() && before[k] == p;
                            assert(after[k] == p);
                        } else {
                            assert(after[before.len() as int] == p);
                        }
                    }
                }
            }
            found.push(name);
            index = index + 1;
        }
        let mut j: usize = 0;
        while j < manifest.files.len()
            invariant
                self@ == entries,
                entries == old(self)@,
                m == manifest@,
                m.files.len() == manifest.files.len(),
                count == entries.len(),
                j <= manifest.files.len(),
                payload_error_upto(entries, m, count as int) is None,
                forall|p: Seq<char>| crate::text::views(found@).contains(p) <==> payload_found(entries, count as int, p),
                forall|k: int| 0 <= k < j ==> payload_found(entries, count as int, #[trigger] m.files[k].path),
            decreases manifest.files.len() - j,
        {
            assert(m.files[j as int] == manifest.files[j as int]@);
            if !crate::association_formats::contains_string(&found, &manifest.files[j].path) {
                assert(!payload_found(entries, count as int, m.files[j as int].path));
                assert(!payload_complete(entries, m));
                return Err(PluginPackageError::MissingPayload(manifest.files[j].path.clone()));
            }
            j = j + 1;
        }
        Ok(())
    }
}

/// An opened package whose manifest signature has been verified.
pub struct SignedPackage {
    pub archive: PackageArchive,
    pub manifest_bytes: Vec<u8>,
}

/// The outcome of opening a package and checking its signature: the
/// bytes are opened as an archive, its entries checked, and the manifest
/// signature verified under `public_key`; gives the signed manifest's
/// bytes.
pub open spec fn signed_package_outcome(bytes: Seq<u8>, public_key: Seq<u8>) -> Result<
    Seq<u8>,
    PackageErrorView,
> {
    match open_outcome(bytes) {
        Err(e) => Err(e),
        Ok(entries) => match entries_error(entries) {
            Some(e) => Err(e),
            None => signed_manifest_outcome(entries, public_key),
        },
    }
}

/// Opens the bytes of a package file, checks its entries, and verifies the
/// signature of its manifest; nothing is extracted.
pub fn open_signed_package(bytes: Vec<u8>, public_key: &[u8]) -> (result: Result<
    SignedPackage,
    PluginPackageError,
>)
    ensures
        (match signed_package_outcome(bytes@, public_key@) {
            Ok(manifest) => result matches Ok(p) && p.manifest_bytes@ == manifest && Some(p.archive@)
                == zip_listing(bytes@) && names_distinct(p.archive@),
            Err(e) => result matches Err(r) && error_matches(r@, e),
        }),
{
    let ghost input = bytes@;
    let mut archive = open_package_archive(bytes)?;
    archive.validate_archive_entries()?;
    let manifest_bytes = archive.read_signed_manifest(public_key)?;
    assert(Some(archive@) == zip_listing(input));
    Ok(SignedPackage { archive, manifest_bytes })
}

/// What checking a signed package against its parsed manifest finds: the
/// first compatibility refusal, else the first refusal of the declared
/// files, else the first payload mismatch; `None` when the entries all
/// match (whether every declared file was found is stated apart).
pub open spec fn contents_error(
    entries: Seq<ZipEntry>,
    m: ManifestView,
    installed: Option<Seq<char>>,
    host: crate::package_checks::HostView,
) -> Option<PackageErrorView> {
    match crate::package_checks::compatibility_error(m, installed, host) {
        Some(e) => Some(e),
        None => match declarations_error(m) {
            Some(e) => Some(e),
            None => payload_error_upto(entries, m, entries.len() as int),
        },
    }
}

/// Checks a signed package against the manifest parsed from its signed
/// bytes: compatibility with this host and the version installed, the
/// declared files, and the payload entries (with the same allowance for a
/// read failure as `PackageArchive::verify_payload`).
pub fn check_package_contents(
    archive: &mut PackageArchive,
    manifest: &PluginPackageManifest,
    installed_version: Option<&str>,
    host: &crate::package_checks::HostInfo,
) -> (result: Result<(), PluginPackageError>)
    ensures
        final(archive)@ == old(archive)@,
        (match contents_error(
            old(archive)@,
            manifest@,
            crate::package_checks::opt_text(installed_version),
            host@,
        ) {
            Some(e) => result matches Err(r) && (error_matches(r@, e) || (
            crate::package_checks::compatibility_error(
                manifest@,
                crate::package_checks::opt_text(installed_version),
                host@,
            ) is None && declarations_error(manifest@) is None && payload_read_may_fail_upto(
                old(archive)@,
                manifest@,
                old(archive)@.len() as int,
            ) && r@ is Io)),
            None => {
                &&& (result is Ok <==> payload_complete(old(archive)@, manifest@))
                &&& (result matches Err(r) ==> exists|j: int|
                    0 <= j < manifest@.files.len() && r@ == PackageErrorView::MissingPayload(
                        #[trigger] manifest@.files[j].path,
                    ) && !payload_found(old(archive)@, old(archive)@.len() as int, manifest@.files[j].path))
            },
        }),
{
    crate::package_checks::validate_compatibility(manifest, installed_version, host)?;
    crate::package_checks::validate_declarations(manifest)?;
    archive.verify_payload(manifest)
}

/// Reading a packaged plugin file by name: missing when no entry has that
/// name or it does not open, too large over 1 MiB as recorded, a read
/// failure when reading fails, and otherwise its bytes.
pub open spec fn bounded_entry_outcome(entries: Seq<ZipEntry>, name: Seq<char>) -> Result<
    Seq<u8>,
    PackageErrorView,
> {
    match metadata_outcome(entries, name) {
        Err(PackageErrorView::MissingMetadata(n)) => Err(PackageErrorView::MissingPayload(n)),
        Err(PackageErrorView::MetadataTooLarge(n)) => Err(PackageErrorView::FileTooLarge(n)),
        other => other,
    }
}

/// The packaged plugin's own manifest and signature files, inside the
/// install directory.
pub open spec fn plugin_manifest_path(install_directory: Seq<char>) -> Seq<char> {
    install_directory + "/lumia.plugin.json"@
}

/// The signature of the packaged plugin's manifest.
pub open spec fn plugin_signature_path(install_directory: Seq<char>) -> Seq<char> {
    install_directory + "/lumia.plugin.sig"@
}

/// The outcome of reading the packaged plugin manifest and checking its
/// signature under the official key; gives the manifest's bytes.
pub open spec fn plugin_manifest_outcome(entries: Seq<ZipEntry>, install_directory: Seq<char>) -> Result<
    Seq<u8>,
    PackageErrorView,
> {
    match bounded_entry_outcome(entries, plugin_manifest_path(install_directory)) {
        Err(e) => Err(e),
        Ok(manifest) => match bounded_entry_outcome(entries, plugin_signature_path(install_directory)) {
            Err(e) => Err(e),
            Ok(signature) => match crate::digest::utf8_text(signature) {
                None => Err(PackageErrorView::InvalidSignatureEncoding),
                Some(text) => match signature_error(
                    crate::package_checks::spec_official_public_key(),
                    manifest,
                    text,
                ) {
                    Some(e) => Err(e),
                    None => Ok(manifest),
                },
            },
        },
    }
}

impl PackageArchive {
    /// Reads one packaged plugin file by name, at most 1 MiB as recorded.
    pub fn read_bounded_entry(&mut self, name: &str) -> (result: Result<Vec<u8>, PluginPackageError>)
        requires
            names_distinct(old(self)@),
        ensures
            final(self)@ == old(self)@,
            bytes_outcome_matches(result, bounded_entry_outcome(old(self)@, name@)),
    {
        match self.read_metadata(name) {
            Ok(bytes) => Ok(bytes),
            Err(PluginPackageError::MissingMetadata(n)) => Err(PluginPackageError::MissingPayload(n)),
            Err(PluginPackageError::MetadataTooLarge(n)) => Err(PluginPackageError::FileTooLarge(n)),
            Err(other) => Err(other),
        }
    }

    /// Reads the plugin manifest packaged inside the install directory and
    /// verifies its signature under the official key; gives its bytes.
    pub fn read_plugin_manifest(&mut self, install_directory: &str) -> (result: Result<
        Vec<u8>,
        PluginPackageError,
    >)
        requires
            names_distinct(old(self)@),
        ensures
            final(self)@ == old(self)@,
            bytes_outcome_matches(result, plugin_manifest_outcome(old(self)@, install_directory@)),
    {
        let manifest_path = crate::text::concat2(install_directory, "/lumia.plugin.json");
        let signature_path = crate::text::concat2(install_directory, "/lumia.plugin.sig");
        let manifest = self.read_bounded_entry(manifest_path.as_str())?;
        let signature = self.read_bounded_entry(signature_path.as_str())?;
        let text = match crate::digest::utf8_decode(&signature) {
            Some(t) => t,
            None => {
                return Err(PluginPackageError::InvalidSignatureEncoding);
            },
        };
        let key = crate::package_checks::official_plugin_public_key();
        verify_ed25519_signature(&key, &manifest, text.as_str())?;
        Ok(manifest)
    }
}

/// The packaged plugin manifest must name the same plugin and version as
/// the package manifest.
pub fn check_plugin_identity(
    plugin_id: &str,
    plugin_version: &str,
    package: &PluginPackageManifest,
) -> (result: Result<(), PluginPackageError>)
    ensures
        result is Ok <==> (plugin_id@ == package@.plugin_id && plugin_version@ == package@.version),
        result matches Err(e) ==> e@ == PackageErrorView::PluginManifestMismatch,
{
    let same_id = crate::text::chars_equal(
        &crate::text::chars_of(plugin_id),
        &crate::text::chars_of(&package.plugin_id),
    );
    let same_version = crate::text::chars_equal(
        &crate::text::chars_of(plugin_version),
        &crate::text::chars_of(&package.version),
    );
    if !same_id || !same_version {
        return Err(PluginPackageError::PluginManifestMismatch);
    }
    Ok(())
}

/// What reading the declared file `d` out of the archive gives: missing
/// when no entry has its path or the entry does not open; a size mismatch
/// when its data is longer or shorter than declared; a read failure when
/// its data goes bad; a hash mismatch when the SHA-256 of its data is not
/// the declared one; and otherwise its data.
pub open spec fn payload_file_outcome(entries: Seq<ZipEntry>, d: FileView) -> Result<Seq<u8>, PackageErrorView> {
    if exists|i: int| 0 <= i < entries.len() && #[trigger] entries[i].0 == d.path {
        let i = choose|i: int| 0 <= i < entries.len() && #[trigger] entries[i].0 == d.path;
        let e = entries[i];
        if !e.1 {
            Err(PackageErrorView::MissingPayload(d.path))
        } else if e.5.len() > d.size {
            Err(PackageErrorView::SizeMismatch(d.path))
        } else if !e.6 {
            Err(PackageErrorView::Io(Seq::empty()))
        } else if e.5.len() != d.size {
            Err(PackageErrorView::SizeMismatch(d.path))
        } else if crate::digest::sha256_hex(e.5) != d.sha256 {
            Err(PackageErrorView::HashMismatch(d.path))
        } else {
            Ok(e.5)
        }
    } else {
        Err(PackageErrorView::MissingPayload(d.path))
    }
}

/// Whether reading the declared file `d` may fail instead of showing that
/// its data runs past the declared size: its entry opens, and its data is
/// longer than declared and goes bad.
pub open spec fn payload_file_read_may_fail(entries: Seq<ZipEntry>, d: FileView) -> bool {
    exists|i: int|
        0 <= i < entries.len() && #[trigger] entries[i].0 == d.path && entries[i].1 && entries[i].5.len()
            > d.size && !entries[i].6
}

impl PackageArchive {
    /// Reads the declared payload file `declared` out of the archive, to be
    /// written into the installation: its data, checked against the
    /// declared size and SHA-256. When its data runs past the declared size
    /// and then goes bad, a read failure may be reported in place of the
    /// size mismatch.
    pub fn read_payload_file(&mut self, declared: &crate::package_checks::PluginPackageFile) -> (result: Result<
        Vec<u8>,
        PluginPackageError,
    >)
        requires
            names_distinct(old(self)@),
        ensures
            final(self)@ == old(self)@,
            bytes_outcome_matches(result, payload_file_outcome(old(self)@, declared@)) || (
            payload_file_read_may_fail(old(self)@, declared@) && (result matches Err(r) && r@ is Io)),
    {
        let ghost entries = self@;
        let path = declared.path.as_str();
        let index = match zip_index_for_name(&self.archive, path) {
            Some(i) => i,
            None => {
                return Err(PluginPackageError::MissingPayload(declared.path.clone()));
            },
        };
        proof {
            let chosen = choose|i: int| 0 <= i < entries.len() && #[trigger] entries[i].0 == declared@.path;
            assert(entries[index as int].0 == declared@.path);
            assert(chosen == index as int);
        }
        let ghost e = entries[index as int];
        match zip_entry_header(&mut self.archive, index) {
            Ok(_) => {},
            Err(_) => {
                return Err(PluginPackageError::MissingPayload(declared.path.clone()));
            },
        }
        let read = if declared.size < u64::MAX {
            zip_read_entry(&mut self.archive, index, declared.size + 1)
        } else {
            zip_read_entry_to_end(&mut self.archive, index)
        };
        let bytes = match read {
            Ok(b) => b,
            Err(message) => {
                proof {
                    if e.5.len() > declared.size {
                        assert(entries[index as int].0 == declared@.path && entries[index as int].1
                            && entries[index as int].5.len() > declared@.size && !entries[index as int].6);
                    }
                }
                return Err(PluginPackageError::Io(message));
            },
        };
        proof {
            if declared.size < u64::MAX && bytes@.len() == declared.size + 1 {
                assert(e.5.len() >= bytes@.len());
            } else {
                assert(e.6 && bytes@ == e.5);
            }
        }
        if bytes.len() as u64 != declared.size {
            return Err(PluginPackageError::SizeMismatch(declared.path.clone()));
        }
        let digest = crate::digest::sha256_hex_exec(&bytes);
        if !crate::text::chars_equal(&crate::text::chars_of(&digest), &crate::text::chars_of(&declared.sha256)) {
            return Err(PluginPackageError::HashMismatch(declared.path.clone()));
        }
        Ok(bytes)
    }
}

} // verus!
