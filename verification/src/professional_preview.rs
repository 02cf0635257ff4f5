//! Checks on the previews that decoder plugins write for professional
//! formats (camera raw and Photoshop files).
use vstd::prelude::*;
use crate::plugin_session::fixed_hex;
use crate::preview_cache::ModifiedTime;

verus! {

/// The largest side of a plugin preview, in pixels.
pub const MAX_PREVIEW_SIDE: u32 = 4096;

/// The eight bytes a PNG file begins with.
pub open spec fn png_signature() -> Seq<u8> {
    seq![0x89u8, 0x50u8, 0x4eu8, 0x47u8, 0x0du8, 0x0au8, 0x1au8, 0x0au8]
}

/// Whether the first bytes of a file are the PNG signature (fewer than
/// eight bytes is not a PNG).
pub fn png_signature_ok(header: &[u8]) -> (result: bool)
    ensures
        result == (header@.len() >= 8 && header@.take(8) == png_signature()),
{
    if header.len() < 8 {
        return false;
    }
    let ok = header[0] == 0x89 && header[1] == 0x50 && header[2] == 0x4e && header[3] == 0x47 && header[4]
        == 0x0d && header[5] == 0x0a && header[6] == 0x1a && header[7] == 0x0a;
    if ok {
        assert(header@.take(8) =~= png_signature());
    } else {
        assert(header@.take(8) != png_signature()) by {
            if header@.take(8) == png_signature() {
                assert(header@.take(8)[0] == header@[0]);
                assert(header@.take(8)[1] == header@[1]);
                assert(header@.take(8)[2] == header@[2]);
                assert(header@.take(8)[3] == header@[3]);
                assert(header@.take(8)[4] == header@[4]);
                assert(header@.take(8)[5] == header@[5]);
                assert(header@.take(8)[6] == header@[6]);
                assert(header@.take(8)[7] == header@[7]);
            }
        }
    }
    ok
}

/// A side length a preview may have.
pub open spec fn preview_side_ok(side: u32) -> bool {
    0 < side && side <= MAX_PREVIEW_SIDE
}

/// Whether a plugin's decode result describes the preview asked for: it
/// was written to the expected path (as text), as `image/png`, with sides
/// between 1 and 4096 pixels.
pub fn decode_result_acceptable(
    output_path: &str,
    expected_path: &str,
    media_type: Option<&str>,
    width: u32,
    height: u32,
) -> (result: bool)
    ensures
        result == (output_path@ == expected_path@ && crate::package_checks::opt_text(media_type) == Some(
            "image/png"@,
        ) && preview_side_ok(width) && preview_side_ok(height)),
{
    let same_path = crate::text::chars_equal(&crate::text::chars_of(output_path), &crate::text::chars_of(expected_path));
    let png = match media_type {
        Some(m) => crate::text::chars_equal(&crate::text::chars_of(m), &crate::text::chars_of("image/png")),
        None => false,
    };
    same_path && png && width > 0 && height > 0 && width <= MAX_PREVIEW_SIDE && height <= MAX_PREVIEW_SIDE
}

/// Whether a decoded preview is usable: sides between 1 and 4096 pixels
/// and, when the source size is known, exactly that size.
pub fn decoded_preview_acceptable(width: u32, height: u32, expected: Option<(u32, u32)>) -> (result: bool)
    ensures
        result == (preview_side_ok(width) && preview_side_ok(height) && (match expected {
            Some(d) => d == (width, height),
            None => true,
        })),
{
    if width == 0 || height == 0 || width > MAX_PREVIEW_SIDE || height > MAX_PREVIEW_SIDE {
        return false;
    }
    match expected {
        Some((w, h)) => w == width && h == height,
        None => true,
    }
}

/// The cached preview's file name for a cache key: 16 lowercase
/// hexadecimal digits and `.png`.
pub fn preview_file_name(key: u64) -> (result: String)
    ensures
        result@ == fixed_hex(key as nat, 16) + ".png"@,
{
    let digits = crate::plugin_session::fixed_hex_text(key);
    crate::text::concat2(digits.as_str(), ".png")
}

/// The media type a decoder plugin is asked to read: camera raw for raw
/// files, Photoshop otherwise.
pub fn media_type(raw: bool) -> (result: &'static str)
    ensures
        result@ == (if raw { "image/x-camera-raw"@ } else { "image/vnd.adobe.photoshop"@ }),
{
    if raw {
        "image/x-camera-raw"
    } else {
        "image/vnd.adobe.photoshop"
    }
}


/// The budget of the directory of plugin previews, in bytes.
pub const PREVIEW_DIRECTORY_BYTES: u64 = 536870912;

/// A file in the directory of plugin previews: its modification time (the
/// epoch when unknown), its size and its path.
#[derive(Debug, Clone, PartialEq, Eq)]
pub struct CachedFile {
    pub modified: ModifiedTime,
    pub bytes: u64,
    pub path: String,
}

/// `a` is an earlier time than `b`. A time before the epoch is written as
/// its distance before it; the epoch itself counts as after it.
pub open spec fn time_lt(a: ModifiedTime, b: ModifiedTime) -> bool {
    if a.after_epoch != b.after_epoch {
        !a.after_epoch
    } else if a.after_epoch {
        a.seconds < b.seconds || (a.seconds == b.seconds && a.nanos < b.nanos)
    } else {
        b.seconds < a.seconds || (b.seconds == a.seconds && b.nanos < a.nanos)
    }
}

/// Whether `a` is an earlier time than `b`.
pub fn time_before(a: ModifiedTime, b: ModifiedTime) -> (result: bool)
    ensures
        result == time_lt(a, b),
{
    if a.after_epoch != b.after_epoch {
        !a.after_epoch
    } else if a.after_epoch {
        a.seconds < b.seconds || (a.seconds == b.seconds && a.nanos < b.nanos)
    } else {
        b.seconds < a.seconds || (b.seconds == a.seconds && b.nanos < a.nanos)
    }
}

/// Where a file modified at `t` goes in a list ordered oldest first: before
/// the first file modified later, after those modified at the same time.
pub open spec fn first_later(files: Seq<CachedFile>, t: ModifiedTime, i: int) -> int
    decreases files.len() - i,
{
    if i < 0 || i >= files.len() {
        files.len() as int
    } else if time_lt(t, files[i].modified) {
        i
    } else {
        first_later(files, t, i + 1)
    }
}

/// The stable sort of files by modification time, oldest first: each file
/// in turn goes after the files modified no later than it.
pub open spec fn sort_by_time(files: Seq<CachedFile>) -> Seq<CachedFile>
    decreases files.len(),
{
    if files.len() == 0 {
        files
    } else {
        let rest = sort_by_time(files.drop_last());
        rest.insert(first_later(rest, files.last().modified, 0), files.last())
    }
}

/// No file is modified earlier than one before it.
pub open spec fn oldest_first(files: Seq<CachedFile>) -> bool {
    forall|i: int, j: int| 0 <= i < j < files.len() ==> !time_lt(#[trigger] files[j].modified, #[trigger] files[i].modified)
}

/// What `first_later` is.
proof fn lemma_first_later(files: Seq<CachedFile>, t: ModifiedTime, i: int)
    requires
        0 <= i <= files.len(),
    ensures
        i <= first_later(files, t, i) <= files.len(),
        forall|k: int| i <= k < first_later(files, t, i) ==> !time_lt(t, #[trigger] files[k].modified),
        first_later(files, t, i) < files.len() ==> time_lt(t, files[first_later(files, t, i)].modified),
    decreases files.len() - i,
{
    if i < files.len() && !time_lt(t, files[i].modified) {
        lemma_first_later(files, t, i + 1);
    }
}

/// The pruning order holds the same files, oldest first.
pub proof fn lemma_sort_by_time(files: Seq<CachedFile>)
    ensures
        oldest_first(sort_by_time(files)),
        sort_by_time(files).to_multiset() == files.to_multiset(),
    decreases files.len(),
{
    if files.len() > 0 {
        let rest = sort_by_time(files.drop_last());
        let x = files.last();
        lemma_sort_by_time(files.drop_last());
        lemma_first_later(rest, x.modified, 0);
        let k = first_later(rest, x.modified, 0);
        let out = rest.insert(k, x);
        assert forall|i: int, j: int| 0 <= i < j < out.len() implies !time_lt(
            #[trigger] out[j].modified,
            #[trigger] out[i].modified,
        ) by {
            if j < k {
                assert(out[i] == rest[i] && out[j] == rest[j]);
            } else if j == k {
                assert(out[i] == rest[i]);
            } else if i == k {
                assert(out[j] == rest[j - 1]);
                if j - 1 > k {
                    assert(!time_lt(rest[j - 1].modified, rest[k].modified));
                }
            } else if i < k {
                assert(out[i] == rest[i] && out[j] == rest[j - 1]);
            } else {
                assert(out[i] == rest[i - 1] && out[j] == rest[j - 1]);
            }
        }
        vstd::seq_lib::lemma_multiset_commutative(rest.take(k), rest.skip(k));
        assert(rest =~= rest.take(k) + rest.skip(k));
        assert(out =~= rest.take(k) + seq![x] + rest.skip(k));
        vstd::seq_lib::lemma_multiset_commutative(rest.take(k) + seq![x], rest.skip(k));
        vstd::seq_lib::lemma_multiset_commutative(rest.take(k), seq![x]);
        vstd::seq_lib::lemma_multiset_commutative(files.drop_last(), seq![x]);
        assert(files.drop_last() + seq![x] =~= files);
    }
}

/// The sizes of `files` added up.
pub open spec fn total_size(files: Seq<CachedFile>) -> int
    decreases files.len(),
{
    if files.len() == 0 {
        0
    } else {
        total_size(files.drop_last()) + files.last().bytes
    }
}

/// Pruning the directory of plugin previews down to a budget: the bytes
/// still counted and the budget.
#[derive(Debug, Clone, Copy, PartialEq, Eq, Structural)]
pub struct CachePruning {
    pub total: u64,
    pub maximum: u64,
}

/// What to do with the next file, oldest first.
#[derive(Debug, Clone, Copy, PartialEq, Eq, Structural)]
pub enum PruneStep {
    /// The directory is within its budget: stop.
    Done,
    /// The file is protected: keep it and go on.
    Keep,
    /// Remove the file, then report it with `removed` if that worked.
    Remove,
}

/// Starts pruning a directory holding `files` down to `maximum` bytes: the
/// files come back oldest first (a stable sort by modification time), and
/// the count starts at their total size, saturated at the largest `u64`.
pub fn begin_cache_pruning(files: Vec<CachedFile>, maximum: u64) -> (result: (CachePruning, Vec<CachedFile>))
    ensures
        result.0.total == (if total_size(files@) > u64::MAX { u64::MAX as int } else { total_size(files@) }),
        result.0.maximum == maximum,
        result.1@ == sort_by_time(files@),
{
    let ghost input = files@;
    let mut rest = files;
    let mut sorted: Vec<CachedFile> = Vec::new();
    let mut total: u64 = 0;
    let mut n: usize = 0;
    assert(input.subrange(0, input.len() as int) =~= input);
    assert(input.len() == rest.len());
    while rest.len() > 0
        invariant
            n <= input.len(),
            input.len() <= usize::MAX,
            rest@ == input.subrange(n as int, input.len() as int),
            sorted@ == sort_by_time(input.take(n as int)),
            total == (if total_size(input.take(n as int)) > u64::MAX { u64::MAX as int } else { total_size(
                input.take(n as int),
            ) }),
        decreases rest.len(),
    {
        let file = rest.remove(0);
        assert(file == input[n as int]);
        assert(input.take(n + 1).drop_last() =~= input.take(n as int));
        assert(input.take(n + 1).last() == input[n as int]);
        total = total.saturating_add(file.bytes);
        let mut position: usize = 0;
        while position < sorted.len() && !time_before(file.modified, sorted[position].modified)
            invariant
                position <= sorted.len(),
                first_later(sorted@, file.modified, 0) == first_later(sorted@, file.modified, position as int),
            decreases sorted.len() - position,
        {
            position = position + 1;
        }
        sorted.insert(position, file);
        n = n + 1;
        assert(rest@ =~= input.subrange(n as int, input.len() as int));
    }
    assert(input.take(n as int) =~= input);
    (CachePruning { total, maximum }, sorted)
}

impl CachePruning {
    /// What to do with the file at `path`: stop once within budget; keep the
    /// protected file (compared as text); otherwise remove it.
    pub fn step(&self, path: &str, protected: Option<&str>) -> (result: PruneStep)
        ensures
            result == (if self.total <= self.maximum {
                PruneStep::Done
            } else if crate::package_checks::opt_text(protected) == Some(path@) {
                PruneStep::Keep
            } else {
                PruneStep::Remove
            }),
    {
        if self.total <= self.maximum {
            return PruneStep::Done;
        }
        match protected {
            Some(kept) => {
                if crate::text::chars_equal(&crate::text::chars_of(kept), &crate::text::chars_of(path)) {
                    PruneStep::Keep
                } else {
                    PruneStep::Remove
                }
            },
            None => PruneStep::Remove,
        }
    }

    /// Counts a file of `bytes` bytes as removed (saturating at zero).
    pub fn removed(&mut self, bytes: u64)
        ensures
            final(self).maximum == old(self).maximum,
            final(self).total == (if old(self).total >= bytes { old(self).total - bytes } else { 0 }),
    {
        self.total = self.total.saturating_sub(bytes);
    }
}


/// Why a professional preview could not be shown.
#[derive(Debug, Clone, Copy, PartialEq, Eq, Structural)]
pub enum ProfessionalDecodeError {
    UnsupportedFormat,
    CorruptImage,
    ResourceLimit,
    DecodeFailed,
    Cancelled,
    PluginUnavailable,
}

/// The kind a decoder plugin gives to a failed request.
#[derive(Debug, Clone, Copy, PartialEq, Eq, Structural)]
pub enum PluginErrorKind {
    Cancelled,
    UnsupportedFormat,
    CorruptImage,
    ResourceLimit,
    PluginUnavailable,
    /// Any other kind the plugin protocol defines.
    Other,
}

/// How talking to a decoder plugin failed.
#[derive(Debug, Clone, Copy, PartialEq, Eq, Structural)]
pub enum HostFailure {
    /// The request was cancelled.
    Cancelled,
    /// The plugin process could not be started.
    Spawn,
    /// The plugin answered with an error, of the kind given if any.
    Rpc(Option<PluginErrorKind>),
    /// Anything else (a timeout, a broken pipe, a malformed reply).
    Other,
}

/// The preview error for a failure talking to the decoder plugin:
/// cancellation, the plugin's own format, image and resource verdicts,
/// an unavailable plugin (including one that cannot be started), and a
/// failed decode for everything else.
pub fn map_host_error(failure: HostFailure) -> (result: ProfessionalDecodeError)
    ensures
        result == match failure {
            HostFailure::Cancelled | HostFailure::Rpc(Some(PluginErrorKind::Cancelled)) => ProfessionalDecodeError::Cancelled,
            HostFailure::Rpc(Some(PluginErrorKind::UnsupportedFormat)) => ProfessionalDecodeError::UnsupportedFormat,
            HostFailure::Rpc(Some(PluginErrorKind::CorruptImage)) => ProfessionalDecodeError::CorruptImage,
            HostFailure::Rpc(Some(PluginErrorKind::ResourceLimit)) => ProfessionalDecodeError::ResourceLimit,
            HostFailure::Spawn | HostFailure::Rpc(Some(PluginErrorKind::PluginUnavailable)) => ProfessionalDecodeError::PluginUnavailable,
            _ => ProfessionalDecodeError::DecodeFailed,
        },
{
    match failure {
        HostFailure::Cancelled | HostFailure::Rpc(Some(PluginErrorKind::Cancelled)) => ProfessionalDecodeError::Cancelled,
        HostFailure::Rpc(Some(PluginErrorKind::UnsupportedFormat)) => ProfessionalDecodeError::UnsupportedFormat,
        HostFailure::Rpc(Some(PluginErrorKind::CorruptImage)) => ProfessionalDecodeError::CorruptImage,
        HostFailure::Rpc(Some(PluginErrorKind::ResourceLimit)) => ProfessionalDecodeError::ResourceLimit,
        HostFailure::Spawn | HostFailure::Rpc(Some(PluginErrorKind::PluginUnavailable)) => ProfessionalDecodeError::PluginUnavailable,
        _ => ProfessionalDecodeError::DecodeFailed,
    }
}

/// The size reported for a professional image: what the plugin's probe
/// gave for each side when it gave a positive value, else the preview's.
pub fn reported_dimensions(
    probe_width: Option<u32>,
    probe_height: Option<u32>,
    preview_width: u32,
    preview_height: u32,
) -> (result: (u32, u32))
    ensures
        result.0 == (match probe_width {
            Some(w) => if w > 0 { w } else { preview_width },
            None => preview_width,
        }),
        result.1 == (match probe_height {
            Some(h) => if h > 0 { h } else { preview_height },
            None => preview_height,
        }),
{
    let width = match probe_width {
        Some(w) => if w > 0 { w } else { preview_width },
        None => preview_width,
    };
    let height = match probe_height {
        Some(h) => if h > 0 { h } else { preview_height },
        None => preview_height,
    };
    (width, height)
}

} // verus!
