//! Character-level helpers: ASCII case folding, substring search, and the
//! parts of paths, with `/` as separator and on Windows also `\` and drive
//! prefixes (`C:`). Other Windows prefixes (`\\server\share`, `\\?\`) are
//! not recognised: such a path reads as one that starts at a root.
use vstd::prelude::*;

verus! {

/// The characters of `s`, in order.
pub fn chars_of(s: &str) -> (result: Vec<char>)
    ensures
        result@ == s@,
{
    broadcast use vstd::string::axiom_spec_iter;
    let mut result: Vec<char> = Vec::new();
    for c in it: s.chars()
        invariant
            result@ == it.seq().take(it.index() as int),
    {
        result.push(c);
    }
    result
}

/// Appends one character with `String::push`. Trusted: the text grows by
/// that character.
#[verifier::external_body]
fn push_char(s: &mut String, c: char)
    ensures
        final(s)@ == old(s)@.push(c),
{
    s.push(c)
}

/// A `String` holding exactly `chars`.
pub fn string_from_chars(chars: &[char]) -> (result: String)
    ensures
        result@ == chars@,
{
    let mut result = String::new();
    let mut i: usize = 0;
    while i < chars.len()
        invariant
            i <= chars.len(),
            result@ == chars@.take(i as int),
        decreases chars.len() - i,
    {
        push_char(&mut result, chars[i]);
        assert(chars@.take(i + 1) =~= chars@.take(i as int).push(chars@[i as int]));
        i = i + 1;
    }
    assert(chars@.take(chars.len() as int) =~= chars@);
    result
}

/// ASCII lowercase of one character; other characters are unchanged.
pub open spec fn ascii_lower(c: char) -> char {
    if 'A' <= c && c <= 'Z' {
        ((c as u32) + 32) as char
    } else {
        c
    }
}

/// ASCII lowercase of every character of `s`.
pub open spec fn lower_seq(s: Seq<char>) -> Seq<char> {
    s.map_values(|c: char| ascii_lower(c))
}

/// Lowercases one ASCII letter.
pub fn lower_char(c: char) -> (result: char)
    ensures
        result == ascii_lower(c),
{
    if 'A' <= c && c <= 'Z' {
        let code: u8 = (c as u32 + 32) as u8;
        code as char
    } else {
        c
    }
}

} // verus!

verus! {

/// `a` and `b` are equal up to ASCII case.
pub open spec fn eq_ignore_case(a: Seq<char>, b: Seq<char>) -> bool {
    lower_seq(a) == lower_seq(b)
}

/// `needle` occurs in `hay` at position `i`.
pub open spec fn occurs_at(hay: Seq<char>, needle: Seq<char>, i: int) -> bool {
    0 <= i && i + needle.len() <= hay.len() && hay.subrange(i, i + needle.len()) == needle
}

/// `needle` occurs somewhere in `hay`.
pub open spec fn contains_seq(hay: Seq<char>, needle: Seq<char>) -> bool {
    exists|i: int| occurs_at(hay, needle, i)
}

/// Compares two character sequences for equality.
pub fn chars_equal(a: &[char], b: &[char]) -> (result: bool)
    ensures
        result == (a@ == b@),
{
    if a.len() != b.len() {
        return false;
    }
    let mut i: usize = 0;
    while i < a.len()
        invariant
            a.len() == b.len(),
            i <= a.len(),
            forall|j: int| 0 <= j < i ==> a@[j] == b@[j],
        decreases a.len() - i,
    {
        if a[i] != b[i] {
            return false;
        }
        i = i + 1;
    }
    assert(a@ =~= b@);
    true
}

/// Compares two character sequences ignoring ASCII case.
pub fn chars_equal_ignore_case(a: &[char], b: &[char]) -> (result: bool)
    ensures
        result == eq_ignore_case(a@, b@),
{
    if a.len() != b.len() {
        assert(lower_seq(a@).len() != lower_seq(b@).len());
        return false;
    }
    let mut i: usize = 0;
    while i < a.len()
        invariant
            a.len() == b.len(),
            i <= a.len(),
            forall|j: int| 0 <= j < i ==> ascii_lower(a@[j]) == ascii_lower(b@[j]),
        decreases a.len() - i,
    {
        if lower_char(a[i]) != lower_char(b[i]) {
            assert(lower_seq(a@)[i as int] != lower_seq(b@)[i as int]);
            return false;
        }
        i = i + 1;
    }
    assert(lower_seq(a@) =~= lower_seq(b@));
    true
}

/// Whether `needle` occurs in `hay` starting at index `at`.
pub fn occurs_at_exec(hay: &[char], needle: &[char], at: usize) -> (result: bool)
    ensures
        result == occurs_at(hay@, needle@, at as int),
{
    if at > hay.len() || needle.len() > hay.len() - at {
        return false;
    }
    let mut j: usize = 0;
    while j < needle.len()
        invariant
            at + needle.len() <= hay.len(),
            j <= needle.len(),
            forall|k: int| 0 <= k < j ==> hay@[at + k] == needle@[k],
        decreases needle.len() - j,
    {
        if hay[at + j] != needle[j] {
            assert(hay@.subrange(at as int, at + needle.len())[j as int] != needle@[j as int]);
            return false;
        }
        j = j + 1;
    }
    assert(hay@.subrange(at as int, at + needle.len()) =~= needle@);
    true
}

/// Whether `needle` occurs anywhere in `hay`.
pub fn contains_chars(hay: &[char], needle: &[char]) -> (result: bool)
    ensures
        result == contains_seq(hay@, needle@),
{
    if needle.len() > hay.len() {
        return false;
    }
    let last: usize = hay.len() - needle.len();
    let mut i: usize = 0;
    loop
        invariant
            needle.len() <= hay.len(),
            last == hay.len() - needle.len(),
            i <= last,
            forall|k: int| 0 <= k < i ==> !occurs_at(hay@, needle@, k),
        decreases last - i,
    {
        if occurs_at_exec(hay, needle, i) {
            return true;
        }
        if i == last {
            assert forall|k: int| occurs_at(hay@, needle@, k) implies false by {
                assert(k <= last);
            }
            return false;
        }
        i = i + 1;
    }
}

} // verus!

verus! {

/// Index of the last `c` in `s`, or `-1` when `c` does not occur.
pub open spec fn last_index_of(s: Seq<char>, c: char) -> int
    decreases s.len(),
{
    if s.len() == 0 {
        -1
    } else if s.last() == c {
        s.len() - 1
    } else {
        last_index_of(s.drop_last(), c)
    }
}

/// The bounds and meaning of `last_index_of`.
pub proof fn lemma_last_index_of(s: Seq<char>, c: char)
    ensures
        -1 <= last_index_of(s, c) < s.len(),
        last_index_of(s, c) >= 0 ==> s[last_index_of(s, c)] == c,
        forall|j: int| last_index_of(s, c) < j < s.len() ==> s[j] != c,
    decreases s.len(),
{
    if s.len() > 0 && s.last() != c {
        lemma_last_index_of(s.drop_last(), c);
        assert(forall|j: int| 0 <= j < s.len() - 1 ==> s.drop_last()[j] == s[j]);
    }
}

/// Index of the last `c` among the first `end` characters of `s`.
pub fn last_index_in(s: &[char], end: usize, c: char) -> (result: Option<usize>)
    requires
        end <= s.len(),
    ensures
        match result {
            Some(i) => last_index_of(s@.subrange(0, end as int), c) == i as int && i < end
                && s@[i as int] == c,
            None => last_index_of(s@.subrange(0, end as int), c) == -1,
        },
{
    let mut k: usize = end;
    while k > 0
        invariant
            k <= end <= s.len(),
            last_index_of(s@.subrange(0, end as int), c) == last_index_of(s@.subrange(0, k as int), c),
        decreases k,
    {
        if s[k - 1] == c {
            return Some(k - 1);
        }
        assert(s@.subrange(0, k as int).drop_last() =~= s@.subrange(0, k - 1));
        k = k - 1;
    }
    None
}

/// `c` separates path components: `/`, and on Windows also `\`.
pub open spec fn is_separator(c: char, windows: bool) -> bool {
    c == '/' || (windows && c == '\\')
}

/// Whether `c` separates path components.
pub fn is_separator_exec(c: char, windows: bool) -> (result: bool)
    ensures
        result == is_separator(c, windows),
{
    c == '/' || (windows && c == '\\')
}

/// The separator written between joined components: `\` on Windows, `/`
/// elsewhere.
pub open spec fn main_separator(windows: bool) -> char {
    if windows {
        '\\'
    } else {
        '/'
    }
}

/// Length of the drive prefix (`C:`) a Windows path starts with; `0` when
/// it has none and on other platforms.
pub open spec fn drive_len(p: Seq<char>, windows: bool) -> int {
    if windows && p.len() >= 2 && (('a' <= p[0] && p[0] <= 'z') || ('A' <= p[0] && p[0] <= 'Z'))
        && p[1] == ':' {
        2
    } else {
        0
    }
}

/// Computes `drive_len`.
pub fn drive_len_exec(p: &[char], windows: bool) -> (result: usize)
    ensures
        result as int == drive_len(p@, windows),
{
    if windows && p.len() >= 2 && (('a' <= p[0] && p[0] <= 'z') || ('A' <= p[0] && p[0] <= 'Z'))
        && p[1] == ':' {
        2
    } else {
        0
    }
}

/// Index of the last separator in `s`, or `-1` when there is none.
pub open spec fn last_separator(s: Seq<char>, windows: bool) -> int
    decreases s.len(),
{
    if s.len() == 0 {
        -1
    } else if is_separator(s.last(), windows) {
        s.len() - 1
    } else {
        last_separator(s.drop_last(), windows)
    }
}

/// The bounds and meaning of `last_separator`.
pub proof fn lemma_last_separator(s: Seq<char>, windows: bool)
    ensures
        -1 <= last_separator(s, windows) < s.len(),
        last_separator(s, windows) >= 0 ==> is_separator(s[last_separator(s, windows)], windows),
        forall|j: int| last_separator(s, windows) < j < s.len() ==> !is_separator(s[j], windows),
    decreases s.len(),
{
    if s.len() > 0 && !is_separator(s.last(), windows) {
        lemma_last_separator(s.drop_last(), windows);
        assert(forall|j: int| 0 <= j < s.len() - 1 ==> s.drop_last()[j] == s[j]);
    }
}

/// Index of the last separator among the first `end` characters of `s`.
pub fn last_separator_in(s: &[char], end: usize, windows: bool) -> (result: Option<usize>)
    requires
        end <= s.len(),
    ensures
        match result {
            Some(i) => last_separator(s@.subrange(0, end as int), windows) == i as int && i < end
                && is_separator(s@[i as int], windows),
            None => last_separator(s@.subrange(0, end as int), windows) == -1,
        },
{
    let mut k: usize = end;
    while k > 0
        invariant
            k <= end <= s.len(),
            last_separator(s@.subrange(0, end as int), windows) == last_separator(
                s@.subrange(0, k as int),
                windows,
            ),
        decreases k,
    {
        if is_separator_exec(s[k - 1], windows) {
            return Some(k - 1);
        }
        assert(s@.subrange(0, k as int).drop_last() =~= s@.subrange(0, k - 1));
        k = k - 1;
    }
    None
}

/// Span (start, end) of the final name among the first `end` characters of
/// a path: empty and `.` components are skipped, a final `..` has no name,
/// and a Windows drive prefix is no name.
pub open spec fn name_span_in(p: Seq<char>, end: int, windows: bool) -> Option<(int, int)>
    decreases end,
{
    if end <= drive_len(p, windows) || end > p.len() {
        None
    } else {
        let i = last_separator(p.subrange(0, end), windows);
        let start = if i + 1 > drive_len(p, windows) {
            i + 1
        } else {
            drive_len(p, windows)
        };
        let segment = p.subrange(start, end);
        if segment.len() == 0 || segment == seq!['.'] {
            if i < 0 || i >= end {
                None
            } else {
                name_span_in(p, i, windows)
            }
        } else if segment == seq!['.', '.'] {
            None
        } else {
            Some((start, end))
        }
    }
}

/// Span of the final name of path `p`.
pub open spec fn name_span(p: Seq<char>, windows: bool) -> Option<(int, int)> {
    name_span_in(p, p.len() as int, windows)
}

/// The final name of path `p` (as `Path::file_name`).
pub open spec fn file_name(p: Seq<char>, windows: bool) -> Option<Seq<char>> {
    match name_span(p, windows) {
        Some((s, e)) => Some(p.subrange(s, e)),
        None => None,
    }
}

/// The part of a file name after its last `.`, when that dot is not the first character.
pub open spec fn name_extension(name: Seq<char>) -> Option<Seq<char>> {
    let d = last_index_of(name, '.');
    if d > 0 {
        Some(name.subrange(d + 1, name.len() as int))
    } else {
        None
    }
}

/// The part of a file name before its last `.`, or the whole name.
pub open spec fn name_stem(name: Seq<char>) -> Seq<char> {
    let d = last_index_of(name, '.');
    if d > 0 {
        name.subrange(0, d)
    } else {
        name
    }
}

/// The extension of path `p` (as `Path::extension`).
pub open spec fn extension(p: Seq<char>, windows: bool) -> Option<Seq<char>> {
    match file_name(p, windows) {
        Some(name) => name_extension(name),
        None => None,
    }
}

/// The stem of path `p` (as `Path::file_stem`).
pub open spec fn file_stem(p: Seq<char>, windows: bool) -> Option<Seq<char>> {
    match file_name(p, windows) {
        Some(name) => Some(name_stem(name)),
        None => None,
    }
}

/// Proves the bounds of a name span.
pub proof fn lemma_name_span_in_bounds(p: Seq<char>, end: int, windows: bool)
    ensures
        name_span_in(p, end, windows) matches Some((s, e)) ==> 0 <= s < e <= p.len(),
    decreases end,
{
    if end > drive_len(p, windows) && end <= p.len() {
        let i = last_separator(p.subrange(0, end), windows);
        lemma_last_separator(p.subrange(0, end), windows);
        let start = if i + 1 > drive_len(p, windows) {
            i + 1
        } else {
            drive_len(p, windows)
        };
        let segment = p.subrange(start, end);
        if segment.len() == 0 || segment == seq!['.'] {
            if i >= 0 && i < end {
                lemma_name_span_in_bounds(p, i, windows);
            }
        }
    }
}

/// Computes the span of the final name of path `p`.
pub fn name_span_exec(p: &[char], windows: bool) -> (result: Option<(usize, usize)>)
    ensures
        match result {
            Some((s, e)) => name_span(p@, windows) == Some((s as int, e as int)) && s < e <= p.len(),
            None => name_span(p@, windows) is None,
        },
{
    let d = drive_len_exec(p, windows);
    let mut end: usize = p.len();
    loop
        invariant
            end <= p.len(),
            d as int == drive_len(p@, windows),
            d <= 2,
            name_span(p@, windows) == name_span_in(p@, end as int, windows),
        decreases end,
    {
        if end <= d {
            return None;
        }
        let found = last_separator_in(p, end, windows);
        let start: usize = match found {
            Some(i) => if i + 1 > d { i + 1 } else { d },
            None => d,
        };
        proof {
            lemma_last_separator(p@.subrange(0, end as int), windows);
        }
        let len: usize = end - start;
        let is_dot = len == 1 && p[start] == '.';
        let is_dot_dot = len == 2 && p[start] == '.' && p[start + 1] == '.';
        proof {
            let segment = p@.subrange(start as int, end as int);
            if len >= 1 {
                assert(segment[0] == p@[start as int]);
            }
            if len == 2 {
                assert(segment[1] == p@[start + 1]);
            }
            if len == 1 {
                assert(is_dot == (segment =~= seq!['.']));
            } else {
                assert(segment != seq!['.']) by {
                    assert(segment.len() != 1);
                }
            }
            if len == 2 {
                assert(is_dot_dot == (segment =~= seq!['.', '.']));
            } else {
                assert(segment != seq!['.', '.']) by {
                    assert(segment.len() != 2);
                }
            }
        }
        if len == 0 || is_dot {
            match found {
                Some(i) => {
                    end = i;
                },
                None => {
                    return None;
                },
            }
        } else if is_dot_dot {
            return None;
        } else {
            return Some((start, end));
        }
    }
}

/// Copies `s[from..to]`.
pub fn copy_range(s: &[char], from: usize, to: usize) -> (result: Vec<char>)
    requires
        from <= to <= s.len(),
    ensures
        result@ == s@.subrange(from as int, to as int),
{
    let mut result: Vec<char> = Vec::new();
    let mut i: usize = from;
    while i < to
        invariant
            from <= i <= to <= s.len(),
            result@ == s@.subrange(from as int, i as int),
        decreases to - i,
    {
        result.push(s[i]);
        i = i + 1;
        assert(result@ =~= s@.subrange(from as int, i as int));
    }
    result
}

/// The final name of path `p`.
pub fn file_name_exec(p: &[char], windows: bool) -> (result: Option<Vec<char>>)
    ensures
        match result {
            Some(v) => file_name(p@, windows) == Some(v@),
            None => file_name(p@, windows) is None,
        },
{
    match name_span_exec(p, windows) {
        Some((s, e)) => Some(copy_range(p, s, e)),
        None => None,
    }
}

/// The extension of path `p`.
pub fn extension_exec(p: &[char], windows: bool) -> (result: Option<Vec<char>>)
    ensures
        match result {
            Some(v) => extension(p@, windows) == Some(v@),
            None => extension(p@, windows) is None,
        },
{
    match file_name_exec(p, windows) {
        Some(name) => {
            let d = last_index_in(&name, name.len(), '.');
            assert(name@.subrange(0, name@.len() as int) =~= name@);
            match d {
                Some(d) => {
                    if d > 0 {
                        Some(copy_range(&name, d + 1, name.len()))
                    } else {
                        None
                    }
                },
                None => None,
            }
        },
        None => None,
    }
}

/// The stem of path `p`.
pub fn file_stem_exec(p: &[char], windows: bool) -> (result: Option<Vec<char>>)
    ensures
        match result {
            Some(v) => file_stem(p@, windows) == Some(v@),
            None => file_stem(p@, windows) is None,
        },
{
    match file_name_exec(p, windows) {
        Some(name) => {
            let d = last_index_in(&name, name.len(), '.');
            assert(name@.subrange(0, name@.len() as int) =~= name@);
            match d {
                Some(d) => {
                    if d > 0 {
                        Some(copy_range(&name, 0, d))
                    } else {
                        Some(name)
                    }
                },
                None => Some(name),
            }
        },
        None => None,
    }
}

} // verus!

verus! {

/// `p` without its trailing `/` characters.
pub open spec fn trim_trailing_slashes(p: Seq<char>) -> Seq<char>
    decreases p.len(),
{
    if p.len() > 0 && p.last() == '/' {
        trim_trailing_slashes(p.drop_last())
    } else {
        p
    }
}

/// Length of the prefix of `p[..end]` that remains once trailing `/` are removed.
pub fn trimmed_len(p: &[char], end: usize) -> (result: usize)
    requires
        end <= p.len(),
    ensures
        result <= end,
        trim_trailing_slashes(p@.subrange(0, end as int)) == p@.subrange(0, result as int),
{
    let mut k: usize = end;
    while k > 0 && p[k - 1] == '/'
        invariant
            k <= end <= p.len(),
            trim_trailing_slashes(p@.subrange(0, end as int)) == trim_trailing_slashes(
                p@.subrange(0, k as int),
            ),
        decreases k,
    {
        assert(p@.subrange(0, k as int).drop_last() =~= p@.subrange(0, k - 1));
        k = k - 1;
    }
    k
}

/// `p` without its trailing separators.
pub open spec fn trim_trailing_separators(p: Seq<char>, windows: bool) -> Seq<char>
    decreases p.len(),
{
    if p.len() > 0 && is_separator(p.last(), windows) {
        trim_trailing_separators(p.drop_last(), windows)
    } else {
        p
    }
}

/// Length of the prefix of `p[..end]` that remains once trailing
/// separators are removed.
pub fn trimmed_separator_len(p: &[char], end: usize, windows: bool) -> (result: usize)
    requires
        end <= p.len(),
    ensures
        result <= end,
        trim_trailing_separators(p@.subrange(0, end as int), windows) == p@.subrange(0, result as int),
{
    let mut k: usize = end;
    while k > 0 && is_separator_exec(p[k - 1], windows)
        invariant
            k <= end <= p.len(),
            trim_trailing_separators(p@.subrange(0, end as int), windows) == trim_trailing_separators(
                p@.subrange(0, k as int),
                windows,
            ),
        decreases k,
    {
        assert(p@.subrange(0, k as int).drop_last() =~= p@.subrange(0, k - 1));
        k = k - 1;
    }
    k
}

/// The path with its last component removed (as `Path::parent`): `None`
/// for an empty path, a root, or a Windows drive alone; the drive (or the
/// empty path) for a single relative component; the root, with the drive
/// before it on Windows, for a component directly under it.
pub open spec fn parent(p: Seq<char>, windows: bool) -> Option<Seq<char>> {
    let q = trim_trailing_separators(p, windows);
    let d = drive_len(q, windows);
    if q.len() <= d {
        None
    } else {
        let i = last_separator(q, windows);
        if i < 0 {
            Some(q.subrange(0, d))
        } else {
            let head = trim_trailing_separators(q.subrange(0, i), windows);
            if head.len() <= d {
                Some(q.subrange(0, d + 1))
            } else {
                Some(head)
            }
        }
    }
}

/// `rel` appended to `base` as `Path::join` does: a `rel` with a drive
/// replaces `base`, a `rel` that starts with a separator keeps only the
/// drive of `base`, and otherwise one separator (`\` on Windows) goes
/// between them unless `base` is empty, a drive alone, or ends with one.
pub open spec fn join(base: Seq<char>, rel: Seq<char>, windows: bool) -> Seq<char> {
    if drive_len(rel, windows) > 0 {
        rel
    } else if rel.len() > 0 && is_separator(rel[0], windows) {
        base.subrange(0, drive_len(base, windows)) + rel
    } else if base.len() == drive_len(base, windows) || is_separator(base.last(), windows) {
        base + rel
    } else {
        base + seq![main_separator(windows)] + rel
    }
}

/// The parent of path `p`.
pub fn parent_exec(p: &[char], windows: bool) -> (result: Option<Vec<char>>)
    ensures
        match result {
            Some(v) => parent(p@, windows) == Some(v@),
            None => parent(p@, windows) is None,
        },
{
    let q_len = trimmed_separator_len(p, p.len(), windows);
    assert(p@.subrange(0, p.len() as int) =~= p@);
    let ghost q = p@.subrange(0, q_len as int);
    let q_chars = copy_range(p, 0, q_len);
    let d = drive_len_exec(&q_chars, windows);
    if q_len <= d {
        return None;
    }
    match last_separator_in(p, q_len, windows) {
        None => Some(copy_range(p, 0, d)),
        Some(i) => {
            proof {
                lemma_last_separator(q, windows);
                if d == 2 {
                    assert(!is_separator(q[0], windows));
                    assert(!is_separator(q[1], windows));
                }
            }
            let h_len = trimmed_separator_len(p, i, windows);
            assert(q.subrange(0, i as int) =~= p@.subrange(0, i as int));
            if h_len <= d {
                let root = copy_range(p, 0, d + 1);
                assert(root@ =~= q.subrange(0, d + 1));
                Some(root)
            } else {
                Some(copy_range(p, 0, h_len))
            }
        },
    }
}

/// Appends every character of `tail` to `out`.
pub fn push_all(out: &mut Vec<char>, tail: &[char])
    ensures
        final(out)@ == old(out)@ + tail@,
{
    let mut i: usize = 0;
    while i < tail.len()
        invariant
            i <= tail.len(),
            out@ == old(out)@ + tail@.subrange(0, i as int),
        decreases tail.len() - i,
    {
        out.push(tail[i]);
        i = i + 1;
        assert(out@ =~= old(out)@ + tail@.subrange(0, i as int));
    }
    assert(tail@.subrange(0, tail.len() as int) =~= tail@);
}

/// Joins `rel` onto `base`.
pub fn join_exec(base: &[char], rel: &[char], windows: bool) -> (result: Vec<char>)
    ensures
        result@ == join(base@, rel@, windows),
{
    let mut out: Vec<char> = Vec::new();
    if drive_len_exec(rel, windows) > 0 {
        push_all(&mut out, rel);
        assert(out@ =~= rel@);
        return out;
    }
    let d = drive_len_exec(base, windows);
    if rel.len() > 0 && is_separator_exec(rel[0], windows) {
        out = copy_range(base, 0, d);
        push_all(&mut out, rel);
        return out;
    }
    push_all(&mut out, base);
    if base.len() != d && !is_separator_exec(base[base.len() - 1], windows) {
        out.push(if windows { '\\' } else { '/' });
    }
    push_all(&mut out, rel);
    assert(out@ =~= join(base@, rel@, windows));
    out
}

} // verus!

verus! {

/// Length of the longest common prefix of `a` and `b`.
pub open spec fn first_diff(a: Seq<char>, b: Seq<char>) -> int
    decreases a.len(),
{
    if a.len() == 0 || b.len() == 0 || a[0] != b[0] {
        0
    } else {
        1 + first_diff(a.drop_first(), b.drop_first())
    }
}

/// `a` sorts strictly before `b` (the order of `str`: by code points, a
/// proper prefix first).
pub open spec fn lex_lt(a: Seq<char>, b: Seq<char>) -> bool {
    let i = first_diff(a, b);
    (i == a.len() && i < b.len()) || (i < a.len() && i < b.len() && (a[i] as int) < (b[i] as int))
}

/// What `first_diff` means.
pub proof fn lemma_first_diff(a: Seq<char>, b: Seq<char>)
    ensures
        0 <= first_diff(a, b) <= a.len(),
        first_diff(a, b) <= b.len(),
        forall|k: int| 0 <= k < first_diff(a, b) ==> a[k] == b[k],
        first_diff(a, b) < a.len() && first_diff(a, b) < b.len() ==> a[first_diff(a, b)] != b[
            first_diff(a, b)
        ],
        first_diff(a, b) == first_diff(b, a),
    decreases a.len(),
{
    if !(a.len() == 0 || b.len() == 0 || a[0] != b[0]) {
        lemma_first_diff(a.drop_first(), b.drop_first());
        assert forall|k: int| 0 <= k < first_diff(a, b) implies a[k] == b[k] by {
            if k > 0 {
                assert(a.drop_first()[k - 1] == b.drop_first()[k - 1]);
            }
        }
    }
}

/// `first_diff` is the index where the common prefix ends.
pub proof fn lemma_first_diff_at(a: Seq<char>, b: Seq<char>, k: int)
    requires
        0 <= k <= a.len(),
        k <= b.len(),
        forall|j: int| 0 <= j < k ==> a[j] == b[j],
        k == a.len() || k == b.len() || a[k] != b[k],
    ensures
        first_diff(a, b) == k,
    decreases k,
{
    if k > 0 {
        lemma_first_diff_at(a.drop_first(), b.drop_first(), k - 1);
    }
}

/// Exactly one of `a < b`, `a == b`, `b < a` holds.
pub proof fn lemma_lex_trichotomy(a: Seq<char>, b: Seq<char>)
    ensures
        lex_lt(a, b) || a == b || lex_lt(b, a),
        !(lex_lt(a, b) && lex_lt(b, a)),
        lex_lt(a, b) ==> a != b,
{
    lemma_first_diff(a, b);
    let i = first_diff(a, b);
    assert(first_diff(b, a) == i);
    if i == a.len() && i == b.len() {
        assert(a =~= b);
    }
    if i < a.len() && i < b.len() {
        assert(a[i] != b[i]);
        assert((a[i] as int) != (b[i] as int));
    }
    if a == b {
        lemma_first_diff_at(a, b, a.len() as int);
    }
}

/// Compares two character sequences: negative, zero or positive as `a` sorts
/// before, equal to, or after `b`.
pub fn compare_chars(a: &[char], b: &[char]) -> (result: i8)
    ensures
        result < 0 <==> lex_lt(a@, b@),
        result == 0 <==> a@ == b@,
        result > 0 <==> lex_lt(b@, a@),
{
    let mut i: usize = 0;
    while i < a.len() && i < b.len() && a[i] == b[i]
        invariant
            i <= a.len(),
            i <= b.len(),
            forall|j: int| 0 <= j < i ==> a@[j] == b@[j],
        decreases a.len() - i,
    {
        i = i + 1;
    }
    proof {
        lemma_first_diff_at(a@, b@, i as int);
        lemma_first_diff(a@, b@);
        lemma_lex_trichotomy(a@, b@);
    }
    if i < a.len() && i < b.len() {
        if a[i] < b[i] {
            -1
        } else {
            1
        }
    } else if i < b.len() {
        -1
    } else if i < a.len() {
        1
    } else {
        assert(a@ =~= b@);
        0
    }
}

/// Every neighbouring pair of `items` is in strictly increasing order.
pub open spec fn strictly_sorted(items: Seq<Seq<char>>) -> bool {
    forall|k: int| 0 <= k < items.len() - 1 ==> lex_lt(#[trigger] items[k], items[k + 1])
}

} // verus!

verus! {

/// The views of a list of strings.
pub open spec fn views(items: Seq<String>) -> Seq<Seq<char>> {
    items.map_values(|s: String| s@)
}

/// Inserts `item` into the strictly increasing list `items` at its place,
/// unless an equal string is already there.
pub fn insert_sorted(items: &mut Vec<String>, item: String)
    requires
        strictly_sorted(views(old(items)@)),
    ensures
        strictly_sorted(views(final(items)@)),
        views(final(items)@).to_set() == views(old(items)@).to_set().insert(item@),
        views(old(items)@).contains(item@) ==> final(items)@ == old(items)@,
{
    let key = chars_of(item.as_str());
    let mut j: usize = 0;
    let mut stop = false;
    while !stop && j < items.len()
        invariant
            j <= items.len(),
            key@ == item@,
            items@ == old(items)@,
            strictly_sorted(views(items@)),
            forall|k: int| 0 <= k < j ==> lex_lt(#[trigger] views(items@)[k], item@),
            stop ==> j < items.len() && lex_lt(item@, views(items@)[j as int]),
        decreases items.len() - j + (if stop { 0int } else { 1int }),
    {
        let current = chars_of(items[j].as_str());
        let order = compare_chars(&current, &key);
        if order == 0 {
            assert(views(items@)[j as int] == item@);
            assert(views(items@).to_set().insert(item@) =~= views(items@).to_set());
            return;
        }
        if order > 0 {
            stop = true;
        } else {
            j = j + 1;
        }
    }
    let ghost before = views(items@);
    proof {
        if j < before.len() {
            lemma_lex_trichotomy(before[j as int], item@);
        }
        assert forall|k: int| 0 <= k < j implies before[k] != item@ by {
            lemma_lex_trichotomy(before[k], item@);
        }
        if j < before.len() {
            assert forall|k: int| j <= k < before.len() implies before[k] != item@ by {
                if k > j {
                    lemma_sorted_after(before, j as int, k, item@);
                }
            }
        }
    }
    items.insert(j, item);
    let ghost after = views(items@);
    assert(after =~= before.insert(j as int, key@));
    assert forall|k: int| 0 <= k < after.len() - 1 implies lex_lt(#[trigger] after[k], after[k + 1]) by {
        if k + 1 < j {
            assert(after[k] == before[k] && after[k + 1] == before[k + 1]);
        } else if k + 1 == j {
            assert(after[k] == before[k]);
        } else if k == j {
            lemma_lex_trichotomy(before[j as int], item@);
        } else {
            assert(after[k] == before[k - 1] && after[k + 1] == before[k]);
        }
    }
    assert(after.to_set() =~= before.to_set().insert(item@)) by {
        assert forall|x: Seq<char>| after.to_set().contains(x) implies before.to_set().insert(item@).contains(x) by {
            let k = choose|k: int| 0 <= k < after.len() && after[k] == x;
            if k < j {
                assert(before[k] == x);
            } else if k > j {
                assert(before[k - 1] == x);
            }
        }
        assert forall|x: Seq<char>| before.to_set().insert(item@).contains(x) implies after.to_set().contains(x) by {
            if x == item@ {
                assert(after[j as int] == x);
            } else {
                let k = choose|k: int| 0 <= k < before.len() && before[k] == x;
                if k < j {
                    assert(after[k] == x);
                } else {
                    assert(after[k + 1] == x);
                }
            }
        }
    }
}

/// In a strictly sorted list whose element at `j` sorts after `x`, no later
/// element equals `x`.
pub proof fn lemma_sorted_after(items: Seq<Seq<char>>, j: int, k: int, x: Seq<char>)
    requires
        strictly_sorted(items),
        0 <= j < k < items.len(),
        lex_lt(x, items[j]),
    ensures
        items[k] != x,
    decreases k - j,
{
    lemma_lex_transitive(x, items[j], items[j + 1]);
    if k > j + 1 {
        lemma_sorted_after(items, j + 1, k, x);
    } else {
        lemma_lex_trichotomy(x, items[k]);
    }
}

/// `lex_lt` is transitive.
pub proof fn lemma_lex_transitive(a: Seq<char>, b: Seq<char>, c: Seq<char>)
    requires
        lex_lt(a, b),
        lex_lt(b, c),
    ensures
        lex_lt(a, c),
{
    lemma_first_diff(a, b);
    lemma_first_diff(b, c);
    lemma_first_diff(a, c);
    let i = first_diff(a, b);
    let j = first_diff(b, c);
    let m = if i < j { i } else { j };
    assert forall|k: int| 0 <= k < m implies a[k] == c[k] by {
        assert(a[k] == b[k]);
        assert(b[k] == c[k]);
    }
    if i < j {
        if i == a.len() {
            lemma_first_diff_at(a, c, i);
        } else {
            assert(a[i] != c[i]) by {
                assert(b[i] == c[i]);
            }
            lemma_first_diff_at(a, c, i);
        }
    } else if j < i {
        if j == b.len() {
            assert(false);
        } else {
            assert(a[j] == b[j]);
            lemma_first_diff_at(a, c, j);
        }
    } else {
        if i < a.len() && i < c.len() {
            assert((a[i] as int) < (c[i] as int));
        }
        lemma_first_diff_at(a, c, i);
    }
}

} // verus!

verus! {

/// `a`, `b` and `c` concatenated.
pub fn concat3(a: &str, b: &str, c: &str) -> (result: String)
    ensures
        result@ == a@ + b@ + c@,
{
    let mut out = chars_of(a);
    push_all(&mut out, &chars_of(b));
    push_all(&mut out, &chars_of(c));
    string_from_chars(&out)
}

/// `a` and `b` concatenated.
pub fn concat2(a: &str, b: &str) -> (result: String)
    ensures
        result@ == a@ + b@,
{
    let mut out = chars_of(a);
    push_all(&mut out, &chars_of(b));
    string_from_chars(&out)
}

} // verus!
