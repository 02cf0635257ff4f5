//! Signed plugin packages: the package manifest, the rules every archive
//! path must follow, the declared payload, and the compatibility of a
//! package with the running build.
use vstd::prelude::*;
use crate::text::{ascii_lower, chars_of, last_index_in, last_index_of, lemma_last_index_of, views};
use crate::versions::{parse_version, semver_less, semver_valid, version_less};

verus! {

/// The package manifest schema this build reads.
pub const PACKAGE_SCHEMA_VERSION: u32 = 1;

/// Largest package file accepted, in bytes.
pub const MAX_COMPRESSED_PACKAGE_BYTES: u64 = 134217728;

/// Largest total payload, in bytes.
pub const MAX_TOTAL_PAYLOAD_BYTES: u64 = 536870912;

/// Largest single payload file, in bytes.
pub const MAX_FILE_BYTES: u64 = 268435456;

/// Largest metadata file (manifest or signature), in bytes.
pub const MAX_METADATA_BYTES: u64 = 1048576;

/// Most payload files a package may declare.
pub const MAX_PAYLOAD_FILES: usize = 512;

/// Most entries an archive may hold.
pub const MAX_ARCHIVE_ENTRIES: usize = 576;

/// Longest archive path, in UTF-8 bytes.
pub const MAX_PATH_BYTES: usize = 240;

/// Why a plugin package was rejected.
#[derive(Debug, PartialEq, Eq)]
#[allow(inconsistent_fields)]
pub enum PluginPackageError {
    UnsupportedSchema(u32),
    UnofficialPlugin(String),
    InvalidVersion { field: String, value: String },
    IncompatiblePlatform { expected: String, actual: String },
    IncompatibleArchitecture { expected: String, actual: String },
    IncompatiblePluginApi { expected: u32, actual: u32 },
    IncompatibleLumiaVersion { minimum: String, current: String },
    DowngradeBlocked { installed: String, package: String },
    UnsafeInstallDirectory(String),
    PackageTooLarge,
    TooManyEntries,
    MissingMetadata(String),
    MetadataTooLarge(String),
    InvalidManifest(String),
    InvalidPluginManifest(String),
    PluginManifestMismatch,
    InvalidSignatureEncoding,
    InvalidSignature,
    UnsafePath(String),
    DuplicatePath(String),
    EncryptedEntry(String),
    UnsupportedEntryType(String),
    TooManyPayloadFiles,
    FileTooLarge(String),
    PayloadTooLarge,
    InvalidDigest(String),
    MissingPayload(String),
    UnexpectedPayload(String),
    SizeMismatch(String),
    HashMismatch(String),
    InvalidArchive(String),
    Io(String),
}

/// The plain value of a package error.
#[allow(inconsistent_fields)]
pub enum PackageErrorView {
    UnsupportedSchema(u32),
    UnofficialPlugin(Seq<char>),
    InvalidVersion { field: Seq<char>, value: Seq<char> },
    IncompatiblePlatform { expected: Seq<char>, actual: Seq<char> },
    IncompatibleArchitecture { expected: Seq<char>, actual: Seq<char> },
    IncompatiblePluginApi { expected: u32, actual: u32 },
    IncompatibleLumiaVersion { minimum: Seq<char>, current: Seq<char> },
    DowngradeBlocked { installed: Seq<char>, package: Seq<char> },
    UnsafeInstallDirectory(Seq<char>),
    PackageTooLarge,
    TooManyEntries,
    MissingMetadata(Seq<char>),
    MetadataTooLarge(Seq<char>),
    InvalidManifest(Seq<char>),
    InvalidPluginManifest(Seq<char>),
    PluginManifestMismatch,
    InvalidSignatureEncoding,
    InvalidSignature,
    UnsafePath(Seq<char>),
    DuplicatePath(Seq<char>),
    EncryptedEntry(Seq<char>),
    UnsupportedEntryType(Seq<char>),
    TooManyPayloadFiles,
    FileTooLarge(Seq<char>),
    PayloadTooLarge,
    InvalidDigest(Seq<char>),
    MissingPayload(Seq<char>),
    UnexpectedPayload(Seq<char>),
    SizeMismatch(Seq<char>),
    HashMismatch(Seq<char>),
    InvalidArchive(Seq<char>),
    Io(Seq<char>),
}

impl View for PluginPackageError {
    type V = PackageErrorView;

    open spec fn view(&self) -> PackageErrorView {
        match self {
            PluginPackageError::UnsupportedSchema(v) => PackageErrorView::UnsupportedSchema(*v),
            PluginPackageError::UnofficialPlugin(s) => PackageErrorView::UnofficialPlugin(s@),
            PluginPackageError::InvalidVersion { field, value } => PackageErrorView::InvalidVersion {
                field: field@,
                value: value@,
            },
            PluginPackageError::IncompatiblePlatform { expected, actual } => PackageErrorView::IncompatiblePlatform {
                expected: expected@,
                actual: actual@,
            },
            PluginPackageError::IncompatibleArchitecture { expected, actual } => PackageErrorView::IncompatibleArchitecture {
                expected: expected@,
                actual: actual@,
            },
            PluginPackageError::IncompatiblePluginApi { expected, actual } => PackageErrorView::IncompatiblePluginApi {
                expected: *expected,
                actual: *actual,
            },
            PluginPackageError::IncompatibleLumiaVersion { minimum, current } => PackageErrorView::IncompatibleLumiaVersion {
                minimum: minimum@,
                current: current@,
            },
            PluginPackageError::DowngradeBlocked { installed, package } => PackageErrorView::DowngradeBlocked {
                installed: installed@,
                package: package@,
            },
            PluginPackageError::UnsafeInstallDirectory(s) => PackageErrorView::UnsafeInstallDirectory(s@),
            PluginPackageError::PackageTooLarge => PackageErrorView::PackageTooLarge,
            PluginPackageError::TooManyEntries => PackageErrorView::TooManyEntries,
            PluginPackageError::MissingMetadata(s) => PackageErrorView::MissingMetadata(s@),
            PluginPackageError::MetadataTooLarge(s) => PackageErrorView::MetadataTooLarge(s@),
            PluginPackageError::InvalidManifest(s) => PackageErrorView::InvalidManifest(s@),
            PluginPackageError::InvalidPluginManifest(s) => PackageErrorView::InvalidPluginManifest(s@),
            PluginPackageError::PluginManifestMismatch => PackageErrorView::PluginManifestMismatch,
            PluginPackageError::InvalidSignatureEncoding => PackageErrorView::InvalidSignatureEncoding,
            PluginPackageError::InvalidSignature => PackageErrorView::InvalidSignature,
            PluginPackageError::UnsafePath(s) => PackageErrorView::UnsafePath(s@),
            PluginPackageError::DuplicatePath(s) => PackageErrorView::DuplicatePath(s@),
            PluginPackageError::EncryptedEntry(s) => PackageErrorView::EncryptedEntry(s@),
            PluginPackageError::UnsupportedEntryType(s) => PackageErrorView::UnsupportedEntryType(s@),
            PluginPackageError::TooManyPayloadFiles => PackageErrorView::TooManyPayloadFiles,
            PluginPackageError::FileTooLarge(s) => PackageErrorView::FileTooLarge(s@),
            PluginPackageError::PayloadTooLarge => PackageErrorView::PayloadTooLarge,
            PluginPackageError::InvalidDigest(s) => PackageErrorView::InvalidDigest(s@),
            PluginPackageError::MissingPayload(s) => PackageErrorView::MissingPayload(s@),
            PluginPackageError::UnexpectedPayload(s) => PackageErrorView::UnexpectedPayload(s@),
            PluginPackageError::SizeMismatch(s) => PackageErrorView::SizeMismatch(s@),
            PluginPackageError::HashMismatch(s) => PackageErrorView::HashMismatch(s@),
            PluginPackageError::InvalidArchive(s) => PackageErrorView::InvalidArchive(s@),
            PluginPackageError::Io(s) => PackageErrorView::Io(s@),
        }
    }
}

/// The error for a failed read of package data.
pub fn io_error(message: String) -> (result: PluginPackageError)
    ensures
        result@ == PackageErrorView::Io(message@),
{
    PluginPackageError::Io(message)
}

/// Number of UTF-8 bytes that encode `c`.
pub open spec fn char_utf8_len(c: char) -> int {
    if (c as u32) < 0x80 {
        1
    } else if (c as u32) < 0x800 {
        2
    } else if (c as u32) < 0x10000 {
        3
    } else {
        4
    }
}

/// Number of UTF-8 bytes that encode `s`.
pub open spec fn utf8_len(s: Seq<char>) -> int
    decreases s.len(),
{
    if s.len() == 0 {
        0
    } else {
        utf8_len(s.drop_last()) + char_utf8_len(s.last())
    }
}

/// Whether the UTF-8 encoding of `s` is longer than `limit` bytes.
fn utf8_longer_than(s: &[char], limit: usize) -> (result: bool)
    ensures
        result == (utf8_len(s@) > limit as int),
{
    let mut total: usize = 0;
    let mut i: usize = 0;
    while i < s.len()
        invariant
            i <= s.len(),
            total as int == utf8_len(s@.subrange(0, i as int)),
            total <= limit,
        decreases s.len() - i,
    {
        let code = s[i] as u32;
        let width: usize = if code < 0x80 {
            1
        } else if code < 0x800 {
            2
        } else if code < 0x10000 {
            3
        } else {
            4
        };
        assert(s@.subrange(0, i + 1).drop_last() =~= s@.subrange(0, i as int));
        if width > limit - total {
            proof {
                lemma_utf8_len_prefix(s@, i + 1);
            }
            return true;
        }
        total = total + width;
        i = i + 1;
    }
    assert(s@.subrange(0, s@.len() as int) =~= s@);
    false
}

/// The UTF-8 length of a prefix is at most that of the whole.
proof fn lemma_utf8_len_prefix(s: Seq<char>, n: int)
    requires
        0 <= n <= s.len(),
    ensures
        utf8_len(s.subrange(0, n)) <= utf8_len(s),
    decreases s.len() - n,
{
    if n < s.len() {
        lemma_utf8_len_prefix(s, n + 1);
        assert(s.subrange(0, n + 1).drop_last() =~= s.subrange(0, n));
    } else {
        assert(s.subrange(0, n) =~= s);
    }
}

/// The `/`-separated segments of `s` (one more than the number of `/`).
pub open spec fn segments(s: Seq<char>) -> Seq<Seq<char>>
    decreases s.len(),
{
    let i = last_index_of(s, '/');
    if i < 0 || i >= s.len() {
        seq![s]
    } else {
        segments(s.subrange(0, i)).push(s.subrange(i + 1, s.len() as int))
    }
}

/// ASCII uppercase of one character.
pub open spec fn ascii_upper(c: char) -> char {
    if 'a' <= c && c <= 'z' {
        ((c as u32) - 32) as char
    } else {
        c
    }
}

/// `s` up to its first `.`.
pub open spec fn before_first_dot(s: Seq<char>) -> Seq<char>
    decreases s.len(),
{
    if s.len() == 0 {
        s
    } else if s[0] == '.' {
        Seq::<char>::empty()
    } else {
        seq![s[0]] + before_first_dot(s.drop_first())
    }
}

/// Whether `stem`, read case-insensitively, is a reserved Windows device
/// name: `CON`, `PRN`, `AUX`, `NUL`, or `COM`/`LPT` followed by a digit 1-9.
pub open spec fn reserved_stem(stem: Seq<char>) -> bool {
    let upper = stem.map_values(|c: char| ascii_upper(c));
    upper == "CON"@ || upper == "PRN"@ || upper == "AUX"@ || upper == "NUL"@ || (upper.len() == 4 && (
    upper.subrange(0, 3) == "COM"@ || upper.subrange(0, 3) == "LPT"@) && '1' <= upper[3] && upper[3]
        <= '9')
}

/// Whether a path component names a Windows device (its part before the
/// first `.`, in any case).
pub open spec fn spec_is_windows_reserved_name(component: Seq<char>) -> bool {
    reserved_stem(before_first_dot(component))
}

} // verus!

verus! {

/// Uppercases one ASCII letter.
fn upper_char(c: char) -> (result: char)
    ensures
        result == ascii_upper(c),
{
    if 'a' <= c && c <= 'z' {
        let code: u8 = (c as u32 - 32) as u8;
        code as char
    } else {
        c
    }
}

/// Whether a path component names a reserved Windows device, such as
/// `CON`, `nul.txt` or `Com1`.
pub fn is_windows_reserved_name(component: &str) -> (result: bool)
    ensures
        result == spec_is_windows_reserved_name(component@),
{
    let chars = chars_of(component);
    let mut upper: Vec<char> = Vec::new();
    let mut i: usize = 0;
    while i < chars.len() && chars[i] != '.'
        invariant
            i <= chars.len(),
            forall|k: int| 0 <= k < i ==> chars@[k] != '.',
            upper@ == chars@.subrange(0, i as int).map_values(|c: char| ascii_upper(c)),
        decreases chars.len() - i,
    {
        upper.push(upper_char(chars[i]));
        i = i + 1;
        assert(upper@ =~= chars@.subrange(0, i as int).map_values(|c: char| ascii_upper(c)));
    }
    proof {
        lemma_before_first_dot(chars@, i as int);
    }
    let ghost stem = chars@.subrange(0, i as int);
    assert(upper@ == stem.map_values(|c: char| ascii_upper(c)));
    let con = crate::text::chars_equal(&upper, &chars_of("CON"));
    let prn = crate::text::chars_equal(&upper, &chars_of("PRN"));
    let aux = crate::text::chars_equal(&upper, &chars_of("AUX"));
    let nul = crate::text::chars_equal(&upper, &chars_of("NUL"));
    if con || prn || aux || nul {
        return true;
    }
    if upper.len() != 4 {
        return false;
    }
    let prefix = crate::text::copy_range(&upper, 0, 3);
    let com = crate::text::chars_equal(&prefix, &chars_of("COM"));
    let lpt = crate::text::chars_equal(&prefix, &chars_of("LPT"));
    (com || lpt) && '1' <= upper[3] && upper[3] <= '9'
}

/// The part before the first `.` is the prefix that ends at the first dot.
proof fn lemma_before_first_dot(s: Seq<char>, i: int)
    requires
        0 <= i <= s.len(),
        forall|k: int| 0 <= k < i ==> s[k] != '.',
        i == s.len() || s[i] == '.',
    ensures
        before_first_dot(s) == s.subrange(0, i),
    decreases i,
{
    if i == 0 {
        if s.len() > 0 {
            assert(before_first_dot(s) =~= Seq::<char>::empty());
        }
        assert(s.subrange(0, 0) =~= Seq::<char>::empty());
    } else {
        lemma_before_first_dot(s.drop_first(), i - 1);
        assert(s.subrange(0, i) =~= seq![s[0]] + s.drop_first().subrange(0, i - 1));
    }
}

/// Whether one `/`-separated segment may stand in a package path: empty
/// segments and `.` after the first segment are skipped; otherwise it must
/// not be `.` or `..`, end with `.` or a space, or name a Windows device.
pub open spec fn segment_ok(segment: Seq<char>, first: bool) -> bool {
    segment.len() == 0 || (segment == seq!['.'] && !first) || (segment != seq!['.'] && segment != seq![
        '.',
        '.',
    ] && segment.last() != '.' && segment.last() != ' ' && !spec_is_windows_reserved_name(segment))
}

/// Every `/`-separated segment of `s` may stand in a package path.
pub open spec fn segments_ok(s: Seq<char>) -> bool
    decreases s.len(),
{
    let i = last_index_of(s, '/');
    if i < 0 || i >= s.len() {
        segment_ok(s, true)
    } else {
        segments_ok(s.subrange(0, i)) && segment_ok(s.subrange(i + 1, s.len() as int), false)
    }
}

/// A package path: non-empty, at most 240 UTF-8 bytes, without `\`, NUL or
/// `:`, relative, and (after trailing `/` are dropped from a directory)
/// non-empty with only acceptable segments; a file path may not end in `/`.
pub open spec fn archive_path_valid(value: Seq<char>, directory: bool) -> bool {
    let normalized = if directory {
        crate::text::trim_trailing_slashes(value)
    } else {
        value
    };
    &&& value.len() > 0
    &&& utf8_len(value) <= MAX_PATH_BYTES as int
    &&& !value.contains('\\')
    &&& !value.contains('\0')
    &&& !value.contains(':')
    &&& value[0] != '/'
    &&& normalized.len() > 0
    &&& (directory || value.last() != '/')
    &&& segments_ok(normalized)
}

/// Whether `c` occurs in `s`.
fn contains_char(s: &[char], c: char) -> (result: bool)
    ensures
        result == s@.contains(c),
{
    let mut i: usize = 0;
    while i < s.len()
        invariant
            i <= s.len(),
            forall|k: int| 0 <= k < i ==> s@[k] != c,
        decreases s.len() - i,
    {
        if s[i] == c {
            assert(s@[i as int] == c);
            return true;
        }
        i = i + 1;
    }
    false
}

/// Whether one segment may stand in a package path.
fn segment_ok_exec(s: &[char], from: usize, to: usize, first: bool) -> (result: bool)
    requires
        from <= to <= s.len(),
    ensures
        result == segment_ok(s@.subrange(from as int, to as int), first),
{
    let ghost segment = s@.subrange(from as int, to as int);
    let len: usize = to - from;
    if len == 0 {
        return true;
    }
    assert(segment[0] == s@[from as int]);
    let is_dot = len == 1 && s[from] == '.';
    if len == 1 {
        assert(is_dot == (segment =~= seq!['.']));
    } else {
        assert(segment != seq!['.']) by {
            assert(segment.len() != 1);
        }
    }
    if is_dot {
        return !first;
    }
    if len == 2 {
        assert(segment[1] == s@[from + 1]);
        if s[from] == '.' && s[from + 1] == '.' {
            assert(segment =~= seq!['.', '.']);
            return false;
        }
        assert(segment != seq!['.', '.']);
    } else {
        assert(segment != seq!['.', '.']) by {
            assert(segment.len() != 2);
        }
    }
    let last = s[to - 1];
    assert(segment.last() == last);
    if last == '.' || last == ' ' {
        return false;
    }
    let piece = crate::text::copy_range(s, from, to);
    let text = crate::text::string_from_chars(&piece);
    !is_windows_reserved_name(text.as_str())
}

/// Whether every segment of `s[..end]` may stand in a package path.
fn segments_ok_exec(s: &[char], end: usize) -> (result: bool)
    requires
        end <= s.len(),
    ensures
        result == segments_ok(s@.subrange(0, end as int)),
{
    let mut stop: usize = end;
    let mut later_ok = true;
    loop
        invariant
            stop <= end <= s.len(),
            segments_ok(s@.subrange(0, end as int)) == (segments_ok(s@.subrange(0, stop as int))
                && later_ok),
        decreases stop,
    {
        let found = last_index_in(s, stop, '/');
        proof {
            lemma_last_index_of(s@.subrange(0, stop as int), '/');
        }
        match found {
            None => {
                assert(s@.subrange(0, stop as int) =~= s@.subrange(0, stop as int));
                return segment_ok_exec(s, 0, stop, true) && later_ok;
            },
            Some(i) => {
                let ok = segment_ok_exec(s, i + 1, stop, false);
                proof {
                    assert(s@.subrange(0, stop as int).subrange(0, i as int) =~= s@.subrange(0, i as int));
                    assert(s@.subrange(0, stop as int).subrange(i + 1, stop as int) =~= s@.subrange(
                        i + 1,
                        stop as int,
                    ));
                }
                later_ok = later_ok && ok;
                stop = i;
            },
        }
    }
}

/// Checks a path from the package archive or manifest: it must satisfy
/// `archive_path_valid`, else the error names the path as unsafe. That a
/// directory entry is checked like its name without trailing `/` is
/// `lemma_directory_entry_checked_as_trimmed_name`.
pub fn validate_archive_path(value: &str, directory: bool) -> (result: Result<(), PluginPackageError>)
    ensures
        result is Ok <==> archive_path_valid(value@, directory),
        result matches Err(e) ==> e@ == PackageErrorView::UnsafePath(value@),
{
    let chars = chars_of(value);
    if chars.len() == 0 || utf8_longer_than(&chars, MAX_PATH_BYTES) || contains_char(&chars, '\\')
        || contains_char(&chars, '\0') || contains_char(&chars, ':') || chars[0] == '/' {
        return Err(PluginPackageError::UnsafePath(value.to_owned()));
    }
    let end: usize = if directory {
        crate::text::trimmed_len(&chars, chars.len())
    } else {
        chars.len()
    };
    proof {
        assert(chars@.subrange(0, chars@.len() as int) =~= chars@);
    }
    if end == 0 || (!directory && chars[chars.len() - 1] == '/') {
        return Err(PluginPackageError::UnsafePath(value.to_owned()));
    }
    if !segments_ok_exec(&chars, end) {
        return Err(PluginPackageError::UnsafePath(value.to_owned()));
    }
    Ok(())
}

/// Dropping trailing `/` leaves a prefix of the path followed only by `/`,
/// and a non-empty result does not end in `/`.
proof fn lemma_trim_trailing_slashes(value: Seq<char>)
    ensures
        crate::text::trim_trailing_slashes(value).len() <= value.len(),
        crate::text::trim_trailing_slashes(value) == value.subrange(
            0,
            crate::text::trim_trailing_slashes(value).len() as int,
        ),
        forall|k: int|
            crate::text::trim_trailing_slashes(value).len() <= k < value.len() ==> value[k] == '/',
        crate::text::trim_trailing_slashes(value).len() > 0 ==> crate::text::trim_trailing_slashes(
            value,
        ).last() != '/',
    decreases value.len(),
{
    if value.len() > 0 && value.last() == '/' {
        lemma_trim_trailing_slashes(value.drop_last());
        let t = crate::text::trim_trailing_slashes(value.drop_last());
        assert(value.drop_last().subrange(0, t.len() as int) =~= value.subrange(0, t.len() as int));
        assert forall|k: int| t.len() <= k < value.len() implies value[k] == '/' by {
            if k < value.len() - 1 {
                assert(value.drop_last()[k] == value[k]);
            }
        }
    } else {
        assert(value.subrange(0, value.len() as int) =~= value);
    }
}

/// A directory entry is checked as its name without the trailing `/` is
/// checked as a file: for a path of at most 240 UTF-8 bytes that is not
/// made of `/` alone, both checks agree.
pub proof fn lemma_directory_entry_checked_as_trimmed_name(value: Seq<char>)
    requires
        utf8_len(value) <= MAX_PATH_BYTES as int,
        crate::text::trim_trailing_slashes(value).len() > 0,
    ensures
        archive_path_valid(value, true) == archive_path_valid(crate::text::trim_trailing_slashes(value), false),
{
    let t = crate::text::trim_trailing_slashes(value);
    lemma_trim_trailing_slashes(value);
    lemma_utf8_len_prefix(value, t.len() as int);
    assert(t[0] == value[0]);
    assert(t.contains('\\') ==> value.contains('\\')) by {
        if t.contains('\\') {
            let k = choose|k: int| 0 <= k < t.len() && t[k] == '\\';
            assert(value[k] == '\\');
        }
    }
    assert(value.contains('\\') ==> t.contains('\\')) by {
        if value.contains('\\') {
            let k = choose|k: int| 0 <= k < value.len() && value[k] == '\\';
            assert(k < t.len());
            assert(t[k] == '\\');
        }
    }
    assert(t.contains('\0') ==> value.contains('\0')) by {
        if t.contains('\0') {
            let k = choose|k: int| 0 <= k < t.len() && t[k] == '\0';
            assert(value[k] == '\0');
        }
    }
    assert(value.contains('\0') ==> t.contains('\0')) by {
        if value.contains('\0') {
            let k = choose|k: int| 0 <= k < value.len() && value[k] == '\0';
            assert(k < t.len());
            assert(t[k] == '\0');
        }
    }
    assert(t.contains(':') ==> value.contains(':')) by {
        if t.contains(':') {
            let k = choose|k: int| 0 <= k < t.len() && t[k] == ':';
            assert(value[k] == ':');
        }
    }
    assert(value.contains(':') ==> t.contains(':')) by {
        if value.contains(':') {
            let k = choose|k: int| 0 <= k < value.len() && value[k] == ':';
            assert(k < t.len());
            assert(t[k] == ':');
        }
    }
}

} // verus!

verus! {

/// The components that one segment contributes to a path (as
/// `Path::components` on `/`-separated paths): a leading empty segment is
/// the root `/`, a leading `.` is kept, and later empty and `.` segments are
/// skipped.
pub open spec fn segment_components(segment: Seq<char>, first: bool, nonempty: bool) -> Seq<Seq<char>> {
    if first {
        if segment.len() == 0 {
            if nonempty {
                seq![seq!['/']]
            } else {
                Seq::empty()
            }
        } else {
            seq![segment]
        }
    } else if segment.len() == 0 || segment == seq!['.'] {
        Seq::empty()
    } else {
        seq![segment]
    }
}

/// The components of the first `end` characters of `s`.
pub open spec fn components_upto(s: Seq<char>, end: int) -> Seq<Seq<char>>
    decreases end,
{
    if end < 0 || end > s.len() {
        Seq::empty()
    } else {
        let prefix = s.subrange(0, end);
        let i = last_index_of(prefix, '/');
        if i < 0 || i >= end {
            segment_components(prefix, true, s.len() > 0)
        } else {
            components_upto(s, i) + segment_components(s.subrange(i + 1, end), false, true)
        }
    }
}

/// The components of path `s`.
pub open spec fn path_components(s: Seq<char>) -> Seq<Seq<char>> {
    components_upto(s, s.len() as int)
}

/// Computes the components of a path.
pub fn components_exec(s: &[char]) -> (result: Vec<Vec<char>>)
    ensures
        result@.map_values(|c: Vec<char>| c@) == path_components(s@),
{
    let mut stop: usize = s.len();
    let mut tail: Vec<Vec<char>> = Vec::new();
    loop
        invariant
            stop <= s.len(),
            path_components(s@) == components_upto(s@, stop as int) + tail@.map_values(
                |c: Vec<char>| c@,
            ).reverse(),
        decreases stop,
    {
        let found = last_index_in(s, stop, '/');
        proof {
            lemma_last_index_of(s@.subrange(0, stop as int), '/');
        }
        let ghost tail_view = tail@.map_values(|c: Vec<char>| c@);
        match found {
            None => {
                let first = crate::text::copy_range(s, 0, stop);
                let mut result: Vec<Vec<char>> = Vec::new();
                if stop == 0 {
                    if s.len() > 0 {
                        let mut root: Vec<char> = Vec::new();
                        root.push('/');
                        result.push(root);
                    }
                } else {
                    result.push(first);
                }
                let ghost head = result@.map_values(|c: Vec<char>| c@);
                assert(head =~= segment_components(s@.subrange(0, stop as int), true, s@.len() > 0));
                let mut k: usize = tail.len();
                while k > 0
                    invariant
                        k <= tail.len(),
                        result@.map_values(|c: Vec<char>| c@) == head + tail@.map_values(
                            |c: Vec<char>| c@,
                        ).reverse().subrange(0, tail.len() - k),
                    decreases k,
                {
                    let ghost before = result@.map_values(|c: Vec<char>| c@);
                    k = k - 1;
                    let piece = crate::text::copy_range(&tail[k], 0, tail[k].len());
                    assert(tail[k as int]@.subrange(0, tail[k as int]@.len() as int) =~= tail[k as int]@);
                    let ghost rv = tail@.map_values(|c: Vec<char>| c@).reverse();
                    assert(rv[tail.len() - 1 - k] == tail@[k as int]@);
                    assert(rv.subrange(0, tail.len() - k) =~= rv.subrange(0, tail.len() - 1 - k).push(
                        tail@[k as int]@,
                    ));
                    result.push(piece);
                    assert(result@.map_values(|c: Vec<char>| c@) =~= before.push(piece@));
                    assert(result@.map_values(|c: Vec<char>| c@) =~= head + tail@.map_values(
                        |c: Vec<char>| c@,
                    ).reverse().subrange(0, tail.len() - k));
                }
                assert(tail@.map_values(|c: Vec<char>| c@).reverse().subrange(0, tail.len() as int)
                    =~= tail@.map_values(|c: Vec<char>| c@).reverse());
                return result;
            },
            Some(i) => {
                let len = stop - (i + 1);
                let skip = len == 0 || (len == 1 && s[i + 1] == '.');
                let ghost segment = s@.subrange(i + 1, stop as int);
                if len == 1 {
                    assert(segment[0] == s@[i + 1]);
                    assert((s[i + 1] == '.') == (segment =~= seq!['.']));
                } else {
                    assert(segment != seq!['.']) by {
                        assert(segment.len() != 1);
                    }
                }
                if !skip {
                    tail.push(crate::text::copy_range(s, i + 1, stop));
                }
                assert(tail@.map_values(|c: Vec<char>| c@).reverse() =~= segment_components(
                    segment,
                    false,
                    true,
                ) + tail_view.reverse());
                stop = i;
            },
        }
    }
}

/// Checks the directory a package installs into: a valid package path made
/// of exactly one component.
pub fn validate_install_directory(value: &str) -> (result: Result<(), PluginPackageError>)
    ensures
        result is Ok <==> (archive_path_valid(value@, false) && path_components(value@).len() == 1),
        result matches Err(e) ==> e@ == PackageErrorView::UnsafeInstallDirectory(value@),
{
    if validate_archive_path(value, false).is_err() {
        return Err(PluginPackageError::UnsafeInstallDirectory(value.to_owned()));
    }
    let components = components_exec(&chars_of(value));
    if components.len() == 1 {
        Ok(())
    } else {
        Err(PluginPackageError::UnsafeInstallDirectory(value.to_owned()))
    }
}

/// `base`'s components begin `path`'s components (as `Path::starts_with`).
pub open spec fn path_starts_with(path: Seq<char>, base: Seq<char>) -> bool {
    let p = path_components(path);
    let b = path_components(base);
    b.len() <= p.len() && p.subrange(0, b.len() as int) == b
}

/// Whether `path` lies under `base` by components.
pub fn path_starts_with_exec(path: &str, base: &str) -> (result: bool)
    ensures
        result == path_starts_with(path@, base@),
{
    let p = components_exec(&chars_of(path));
    let b = components_exec(&chars_of(base));
    let ghost pv = p@.map_values(|c: Vec<char>| c@);
    let ghost bv = b@.map_values(|c: Vec<char>| c@);
    assert(pv.len() == p.len() && bv.len() == b.len());
    if b.len() > p.len() {
        return false;
    }
    let mut i: usize = 0;
    while i < b.len()
        invariant
            b.len() <= p.len(),
            i <= b.len(),
            pv == p@.map_values(|c: Vec<char>| c@),
            bv == b@.map_values(|c: Vec<char>| c@),
            pv == path_components(path@),
            bv == path_components(base@),
            forall|k: int| 0 <= k < i ==> pv[k] == bv[k],
        decreases b.len() - i,
    {
        if !crate::text::chars_equal(&p[i], &b[i]) {
            assert(pv[i as int] == p@[i as int]@);
            assert(bv[i as int] == b@[i as int]@);
            assert(pv.subrange(0, bv.len() as int)[i as int] != bv[i as int]);
            return false;
        }
        i = i + 1;
    }
    assert(pv.subrange(0, bv.len() as int) =~= bv);
    true
}

/// The key under which two package paths collide: trailing `/` removed,
/// then lowercased with Unicode rules.
pub open spec fn spec_path_comparison_key(value: Seq<char>) -> Seq<char> {
    crate::digest::unicode_lowercase(crate::text::trim_trailing_slashes(value))
}

/// Computes the collision key of a package path.
pub fn path_comparison_key(value: &str) -> (result: String)
    ensures
        result@ == spec_path_comparison_key(value@),
{
    let chars = chars_of(value);
    let end = crate::text::trimmed_len(&chars, chars.len());
    assert(chars@.subrange(0, chars@.len() as int) =~= chars@);
    let trimmed = crate::text::string_from_chars(&crate::text::copy_range(&chars, 0, end));
    crate::digest::to_lowercase(trimmed.as_str())
}

} // verus!

