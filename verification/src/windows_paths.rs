//! Comparing the paths and class ids the Windows registry holds.
use vstd::prelude::*;
use crate::digest::unicode_lowercase;
use crate::text::{chars_of, contains_seq, string_from_chars};

verus! {

/// The class id of Lumia's SVG thumbnail provider.
pub open spec fn thumbnail_clsid() -> Seq<char> {
    "{0F6F22C8-3077-4B32-A61C-7738E61F242B}"@
}

/// The class id of Lumia's SVG thumbnail provider.
pub fn thumbnail_clsid_text() -> (result: &'static str)
    ensures
        result@ == thumbnail_clsid(),
{
    "{0F6F22C8-3077-4B32-A61C-7738E61F242B}"
}

/// The extensions whose Explorer thumbnails Lumia's provider draws.
pub fn thumbnail_extensions() -> (result: [&'static str; 2])
    ensures
        result[0]@ == "svg"@,
        result[1]@ == "svgz"@,
{
    ["svg", "svgz"]
}

/// The characters trimmed: braces, or else double quotes.
pub open spec fn strip_char(c: char, braces: bool) -> bool {
    if braces {
        c == '{' || c == '}'
    } else {
        c == '"'
    }
}

/// Whether `c` is trimmed.
fn strip_char_exec(c: char, braces: bool) -> (result: bool)
    ensures
        result == strip_char(c, braces),
{
    if braces {
        c == '{' || c == '}'
    } else {
        c == '"'
    }
}

/// `s` without the trimmed characters at its start.
pub open spec fn trim_start_where(s: Seq<char>, strip: bool) -> Seq<char>
    decreases s.len(),
{
    if s.len() > 0 && strip_char(s[0], strip) {
        trim_start_where(s.drop_first(), strip)
    } else {
        s
    }
}

/// `s` without the trimmed characters at its end.
pub open spec fn trim_end_where(s: Seq<char>, strip: bool) -> Seq<char>
    decreases s.len(),
{
    if s.len() > 0 && strip_char(s.last(), strip) {
        trim_end_where(s.drop_last(), strip)
    } else {
        s
    }
}

/// `s` without the trimmed characters at either end.
pub open spec fn trim_where(s: Seq<char>, strip: bool) -> Seq<char> {
    trim_end_where(trim_start_where(s, strip), strip)
}

/// `s` with every `/` written `\`.
pub open spec fn backslashes(s: Seq<char>) -> Seq<char> {
    s.map_values(|c: char| if c == '/' { '\\' } else { c })
}

/// Strips braces (or else double quotes) from both ends of `s`.
fn trim_exec(s: &Vec<char>, braces: bool) -> (result: Vec<char>)
    ensures
        result@ == trim_where(s@, braces),
{
    let ghost strip = braces;
    let mut start: usize = 0;
    assert(s@.subrange(0, s.len() as int) =~= s@);
    while start < s.len() && strip_char_exec(s[start], braces)
        invariant
            start <= s.len(),
            strip == braces,
            trim_start_where(s@, strip) == trim_start_where(s@.subrange(start as int, s.len() as int), strip),
        decreases s.len() - start,
    {
        assert(s@.subrange(start as int, s.len() as int).drop_first() =~= s@.subrange(start + 1, s.len() as int));
        start = start + 1;
    }
    let ghost middle = s@.subrange(start as int, s.len() as int);
    assert(trim_start_where(middle, strip) == middle);
    let mut end: usize = s.len();
    while end > start && strip_char_exec(s[end - 1], braces)
        invariant
            start <= end <= s.len(),
            strip == braces,
            middle == s@.subrange(start as int, s.len() as int),
            trim_end_where(middle, strip) == trim_end_where(s@.subrange(start as int, end as int), strip),
        decreases end - start,
    {
        assert(s@.subrange(start as int, end as int).drop_last() =~= s@.subrange(start as int, end - 1));
        end = end - 1;
    }
    let out = crate::text::copy_range(s, start, end);
    assert(trim_end_where(s@.subrange(start as int, end as int), strip) == s@.subrange(start as int, end as int));
    out
}

/// `s` with every `/` written `\`.
fn backslashes_exec(s: &Vec<char>) -> (result: Vec<char>)
    ensures
        result@ == backslashes(s@),
{
    let mut out: Vec<char> = Vec::new();
    let mut i: usize = 0;
    while i < s.len()
        invariant
            i <= s.len(),
            out@ == backslashes(s@.subrange(0, i as int)),
        decreases s.len() - i,
    {
        out.push(if s[i] == '/' { '\\' } else { s[i] });
        i = i + 1;
        assert(out@ =~= backslashes(s@.subrange(0, i as int)));
    }
    assert(s@.subrange(0, s.len() as int) =~= s@);
    out
}

/// A registry path put in comparable form: quotes trimmed from both ends,
/// `/` written `\`, lowercased.
pub open spec fn spec_normalize_windows_path(path: Seq<char>) -> Seq<char> {
    unicode_lowercase(backslashes(trim_where(path, false)))
}

/// Puts a registry path in comparable form.
pub fn normalize_windows_path(path: &str) -> (result: String)
    ensures
        result@ == spec_normalize_windows_path(path@),
{
    let trimmed = trim_exec(&chars_of(path), false);
    let slashed = string_from_chars(&backslashes_exec(&trimmed));
    crate::digest::to_lowercase(&slashed)
}

/// A class id put in comparable form: braces trimmed from both ends,
/// lowercased.
pub open spec fn spec_normalize_guid(value: Seq<char>) -> Seq<char> {
    unicode_lowercase(trim_where(value, true))
}

/// Puts a class id in comparable form.
pub fn normalize_guid(value: &str) -> (result: String)
    ensures
        result@ == spec_normalize_guid(value@),
{
    let trimmed = string_from_chars(&trim_exec(&chars_of(value), true));
    crate::digest::to_lowercase(&trimmed)
}

/// Whether a registry value points at the Lumia executable installed under
/// Program Files by an earlier installer: once `/` is written `\` and
/// everything lowercased, it holds `\program files\` or
/// `\program files (x86)\`, and `\lumia\lumia-app.exe`.
pub open spec fn spec_is_legacy_program_files_reference(value: Seq<char>) -> bool {
    let normalized = unicode_lowercase(backslashes(value));
    (contains_seq(normalized, "\\program files\\"@) || contains_seq(normalized, "\\program files (x86)\\"@))
        && contains_seq(normalized, "\\lumia\\lumia-app.exe"@)
}

/// Whether a registry value points at a legacy Program Files install.
pub fn is_legacy_program_files_reference(value: &str) -> (result: bool)
    ensures
        result == spec_is_legacy_program_files_reference(value@),
{
    let slashed = string_from_chars(&backslashes_exec(&chars_of(value)));
    let normalized = chars_of(&crate::digest::to_lowercase(&slashed));
    let program_files = crate::text::contains_chars(&normalized, &chars_of("\\program files\\"))
        || crate::text::contains_chars(&normalized, &chars_of("\\program files (x86)\\"));
    program_files && crate::text::contains_chars(&normalized, &chars_of("\\lumia\\lumia-app.exe"))
}

/// The thumbnail provider's library, installed beside the executable.
pub open spec fn thumbnail_dll() -> Seq<char> {
    "lumia_svg_thumbnail.dll"@
}

/// Whether Explorer's SVG thumbnail handler points at the provider in
/// `exe_dir`: the `.svg` handler class id (`handler`) is the provider's,
/// and the class's `InprocServer32` path (`inproc_server`) is the library
/// beside the executable, both compared in normalized form. A value that is
/// absent counts as not configured.
pub open spec fn spec_thumbnail_handler_configured(
    handler: Option<Seq<char>>,
    inproc_server: Option<Seq<char>>,
    exe_dir: Seq<char>,
) -> bool {
    &&& handler matches Some(h) && spec_normalize_guid(h) == spec_normalize_guid(thumbnail_clsid())
    &&& inproc_server matches Some(p) && spec_normalize_windows_path(p) == spec_normalize_windows_path(
        crate::text::join(exe_dir, thumbnail_dll(), true),
    )
}

/// Decides from the two registry values whether the thumbnail handler is
/// configured for the executable directory `exe_dir`, so that a portable
/// install that moved re-registers itself.
pub fn thumbnail_handler_configured(handler: Option<&str>, inproc_server: Option<&str>, exe_dir: &str) -> (result: bool)
    ensures
        result == spec_thumbnail_handler_configured(
            crate::package_checks::opt_text(handler),
            crate::package_checks::opt_text(inproc_server),
            exe_dir@,
        ),
{
    let handler = match handler {
        Some(h) => h,
        None => return false,
    };
    let wanted = chars_of(&normalize_guid(thumbnail_clsid_text()));
    if !crate::text::chars_equal(&chars_of(&normalize_guid(handler)), &wanted) {
        return false;
    }
    let inproc_server = match inproc_server {
        Some(p) => p,
        None => return false,
    };
    let dll = string_from_chars(&crate::text::join_exec(&chars_of(exe_dir), &chars_of("lumia_svg_thumbnail.dll"), true));
    let expected = chars_of(&normalize_windows_path(&dll));
    crate::text::chars_equal(&chars_of(&normalize_windows_path(inproc_server)), &expected)
}

} // verus!
