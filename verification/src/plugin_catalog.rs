//! Where a plugin's executable lives: the candidates beside the Lumia
//! executable and the entry named by a plugin manifest.
use vstd::prelude::*;
use crate::persistence::opt_text_owned;
use crate::text::{chars_of, join, join_exec, name_span, parent, string_from_chars};

verus! {

/// The bundled Photoshop plugin's executable name.
pub open spec fn photoshop_executable(windows: bool) -> Seq<char> {
    if windows {
        "lumia-plugin-photoshop.exe"@
    } else {
        "lumia-plugin-photoshop"@
    }
}

/// Where the bundled Photoshop plugin may be, in order of preference:
/// beside the Lumia executable, in its `plugins` directory, and in that
/// directory's `lumia-plugin-photoshop` directory. The directory is the
/// executable's parent, or `.` when it has none.
pub open spec fn spec_entry_candidates(current_exe: Seq<char>, windows: bool) -> Seq<Seq<char>> {
    let directory = match parent(current_exe, windows) {
        Some(p) => p,
        None => "."@,
    };
    let exe = photoshop_executable(windows);
    let plugins = join(directory, "plugins"@, windows);
    seq![
        join(directory, exe, windows),
        join(plugins, exe, windows),
        join(join(plugins, "lumia-plugin-photoshop"@, windows), exe, windows),
    ]
}

/// Joins two texts as paths.
fn join_text(base: &[char], rel: &str, windows: bool) -> (result: Vec<char>)
    ensures
        result@ == join(base@, rel@, windows),
{
    join_exec(base, &chars_of(rel), windows)
}

/// The places the bundled Photoshop plugin is looked for.
pub fn entry_candidates(current_exe: &str, windows: bool) -> (result: Vec<String>)
    ensures
        crate::text::views(result@) == spec_entry_candidates(current_exe@, windows),
{
    let directory = match crate::text::parent_exec(&chars_of(current_exe), windows) {
        Some(p) => p,
        None => chars_of("."),
    };
    let exe = if windows {
        "lumia-plugin-photoshop.exe"
    } else {
        "lumia-plugin-photoshop"
    };
    let plugins = join_text(&directory, "plugins", windows);
    let nested = join_text(&plugins, "lumia-plugin-photoshop", windows);
    let mut result: Vec<String> = Vec::new();
    result.push(string_from_chars(&join_text(&directory, exe, windows)));
    result.push(string_from_chars(&join_text(&plugins, exe, windows)));
    result.push(string_from_chars(&join_text(&nested, exe, windows)));
    assert(crate::text::views(result@) =~= spec_entry_candidates(current_exe@, windows));
    result
}

/// The entry of the bundled Photoshop plugin: the first candidate that is a
/// file (`existing[i]` says whether candidate `i` is one), else the first.
pub open spec fn spec_resolve_entry(current_exe: Seq<char>, windows: bool, existing: Seq<bool>) -> Seq<char> {
    let candidates = spec_entry_candidates(current_exe, windows);
    if existing[0] {
        candidates[0]
    } else if existing[1] {
        candidates[1]
    } else if existing[2] {
        candidates[2]
    } else {
        candidates[0]
    }
}

/// Chooses the bundled Photoshop plugin's entry.
pub fn resolve_entry(current_exe: &str, windows: bool, existing: &Vec<bool>) -> (result: String)
    requires
        existing.len() == 3,
    ensures
        result@ == spec_resolve_entry(current_exe@, windows, existing@),
{
    let mut candidates = entry_candidates(current_exe, windows);
    assert(crate::text::views(candidates@).len() == candidates@.len());
    let mut i: usize = 0;
    while i < 3
        invariant
            i <= 3,
            existing.len() == 3,
            crate::text::views(candidates@) == spec_entry_candidates(current_exe@, windows),
            candidates.len() == 3,
            forall|k: int| 0 <= k < i ==> !existing@[k],
        decreases 3 - i,
    {
        if existing[i] {
            assert(crate::text::views(candidates@)[i as int] == candidates@[i as int]@);
            let chosen = candidates.remove(i);
            assert(chosen@ == spec_entry_candidates(current_exe@, windows)[i as int]);
            return chosen;
        }
        i = i + 1;
    }
    assert(crate::text::views(candidates@)[0] == candidates@[0]@);
    let first = candidates.remove(0);
    assert(first@ == spec_entry_candidates(current_exe@, windows)[0]);
    first
}

/// `p` with `.exe` put after its final name (trailing separators dropped),
/// as `Path::with_extension` does on a name without extension; unchanged
/// when it has no final name.
pub open spec fn with_exe_extension(p: Seq<char>, windows: bool) -> Seq<char> {
    match name_span(p, windows) {
        Some((s, e)) => p.subrange(0, e) + ".exe"@,
        None => p,
    }
}

/// The executable of an installed plugin: its entry under its root, with
/// `.exe` added on Windows when the entry has no extension.
pub open spec fn spec_resolved_entry_path(root: Seq<char>, entry: Seq<char>, windows: bool) -> Seq<char> {
    let joined = join(root, entry, windows);
    if windows && crate::text::extension(joined, windows) is None {
        with_exe_extension(joined, windows)
    } else {
        joined
    }
}

/// Resolves the executable of an installed plugin.
pub fn resolved_entry_path(root: &str, entry: &str, windows: bool) -> (result: String)
    ensures
        result@ == spec_resolved_entry_path(root@, entry@, windows),
{
    let joined = join_exec(&chars_of(root), &chars_of(entry), windows);
    if windows && crate::text::extension_exec(&joined, windows).is_none() {
        match crate::text::name_span_exec(&joined, windows) {
            Some((_, end)) => {
                proof {
                    crate::text::lemma_name_span_in_bounds(joined@, joined@.len() as int, windows);
                }
                let mut out = crate::text::copy_range(&joined, 0, end);
                crate::text::push_all(&mut out, &chars_of(".exe"));
                string_from_chars(&out)
            },
            None => string_from_chars(&joined),
        }
    } else {
        string_from_chars(&joined)
    }
}

} // verus!
