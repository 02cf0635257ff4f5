//! Edit-session arithmetic.
use vstd::prelude::*;
use crate::formats::has_extension;
use crate::text::{chars_of, file_stem, file_stem_exec, push_all, string_from_chars};

verus! {

/// The rounded value of `value * linked_axis / source_axis`, with a zero
/// source axis treated as one, clamped to `1..=u32::MAX`.
pub open spec fn spec_linked_dimension(value: u32, source_axis: u32, linked_axis: u32) -> int {
    let divisor: int = if source_axis == 0 { 1 } else { source_axis as int };
    let scaled: int = (value as int * linked_axis as int + source_axis as int / 2) / divisor;
    if scaled < 1 { 1 } else if scaled > u32::MAX as int { u32::MAX as int } else { scaled }
}

/// Scales `value` along one axis to the matching length on the other axis,
/// rounding to nearest and never returning zero.
pub fn linked_dimension(value: u32, source_axis: u32, linked_axis: u32) -> (result: u32)
    ensures
        result as int == spec_linked_dimension(value, source_axis, linked_axis),
{
    let divisor: u64 = if source_axis == 0 { 1 } else { source_axis as u64 };
    assert(value as int * linked_axis as int <= 0xffff_ffff * 0xffff_ffff) by (nonlinear_arith)
        requires value <= 0xffff_ffff, linked_axis <= 0xffff_ffff;
    let product: u64 = value as u64 * linked_axis as u64;
    let scaled: u64 = (product + source_axis as u64 / 2) / divisor;
    if scaled < 1 {
        1
    } else if scaled > u32::MAX as u64 {
        u32::MAX
    } else {
        scaled as u32
    }
}

} // verus!

verus! {

/// The kind of edit an edit session performs.
#[derive(Debug, Clone, Copy, PartialEq, Eq, Structural)]
pub enum EditMode {
    Crop,
    Resize,
}

/// The aspect-ratio constraint of a crop selection.
#[derive(Debug, Clone, Copy, PartialEq, Eq, Structural)]
pub enum CropAspect {
    Free,
    Original,
    Square,
    FourThree,
    SixteenNine,
}

/// A crop selection in source pixels.
#[derive(Debug, Clone, Copy, PartialEq, Eq, Structural)]
pub struct CropRect {
    pub x: u32,
    pub y: u32,
    pub width: u32,
    pub height: u32,
}

impl CropRect {
    /// A rectangle with the given origin and size.
    pub fn new(x: u32, y: u32, width: u32, height: u32) -> (result: CropRect)
        ensures
            result == (CropRect { x, y, width, height }),
    {
        CropRect { x, y, width, height }
    }
}

/// The values of an edit session that decide whether it holds unapplied changes.
#[derive(Debug, Clone, Copy, PartialEq, Eq)]
pub struct EditSession {
    pub mode: Option<EditMode>,
    pub source_width: u32,
    pub source_height: u32,
    pub crop_rect: CropRect,
    pub crop_aspect: CropAspect,
    pub resize_width: u32,
    pub resize_height: u32,
    pub lock_aspect: bool,
}

impl Default for EditSession {
    /// No session: nothing selected, an aspect-locked zero size.
    fn default() -> (result: EditSession)
        ensures
            result == (EditSession {
                mode: None,
                source_width: 0,
                source_height: 0,
                crop_rect: CropRect { x: 0, y: 0, width: 0, height: 0 },
                crop_aspect: CropAspect::Free,
                resize_width: 0,
                resize_height: 0,
                lock_aspect: true,
            }),
    {
        EditSession {
            mode: None,
            source_width: 0,
            source_height: 0,
            crop_rect: CropRect { x: 0, y: 0, width: 0, height: 0 },
            crop_aspect: CropAspect::Free,
            resize_width: 0,
            resize_height: 0,
            lock_aspect: true,
        }
    }
}

/// A crop session has changes when its aspect is constrained or its selection
/// is not the whole image; a resize session when its size differs from the
/// source or its aspect lock is off; no session has none.
pub open spec fn spec_edit_session_has_changes(state: EditSession) -> bool {
    match state.mode {
        Some(EditMode::Crop) => state.crop_aspect != CropAspect::Free || state.crop_rect != (
        CropRect { x: 0, y: 0, width: state.source_width, height: state.source_height }),
        Some(EditMode::Resize) => state.resize_width != state.source_width || state.resize_height
            != state.source_height || !state.lock_aspect,
        None => false,
    }
}

/// Whether the session carries unapplied changes that closing it would lose.
pub fn edit_session_has_changes(state: &EditSession) -> (result: bool)
    ensures
        result == spec_edit_session_has_changes(*state),
{
    match state.mode {
        Some(EditMode::Crop) => {
            state.crop_aspect != CropAspect::Free || state.crop_rect != CropRect::new(
                0,
                0,
                state.source_width,
                state.source_height,
            )
        },
        Some(EditMode::Resize) => {
            state.resize_width != state.source_width || state.resize_height != state.source_height
                || !state.lock_aspect
        },
        None => false,
    }
}

/// An output of `width` x `height` pixels is non-empty and its four-byte
/// pixels fit in `max_output_bytes`.
pub open spec fn spec_valid_output_dimensions(width: u32, height: u32, max_output_bytes: u64) -> bool {
    width > 0 && height > 0 && width as int * height as int * 4 <= u64::MAX as int && width as int
        * height as int * 4 <= max_output_bytes as int
}

/// Whether an edit may produce an image of the given size.
pub fn valid_output_dimensions(width: u32, height: u32, max_output_bytes: u64) -> (result: bool)
    ensures
        result == spec_valid_output_dimensions(width, height, max_output_bytes),
{
    if width == 0 || height == 0 {
        return false;
    }
    assert(width as int * height as int <= 0xffff_ffff * 0xffff_ffff) by (nonlinear_arith)
        requires width <= 0xffff_ffff, height <= 0xffff_ffff;
    let pixels: u64 = width as u64 * height as u64;
    match pixels.checked_mul(4) {
        Some(bytes) => bytes <= max_output_bytes,
        None => false,
    }
}

/// The stem of `path`, or `image` when it has none.
pub open spec fn stem_or_image(path: Seq<char>) -> Seq<char> {
    match file_stem(path, false) {
        Some(stem) => stem,
        None => "image"@,
    }
}

/// The stem of `path` or `image`.
fn stem_or_image_exec(path: &str) -> (result: Vec<char>)
    ensures
        result@ == stem_or_image(path@),
{
    let chars = chars_of(path);
    match file_stem_exec(&chars, false) {
        Some(stem) => stem,
        None => chars_of("image"),
    }
}

/// The suggested name of an annotated copy: `{stem}-annotated.png`.
pub fn annotation_export_name(path: &str) -> (result: String)
    ensures
        result@ == stem_or_image(path@) + "-annotated.png"@,
{
    let mut name = stem_or_image_exec(path);
    push_all(&mut name, &chars_of("-annotated.png"));
    string_from_chars(&name)
}

/// The word naming an edit operation in export names.
pub open spec fn mode_suffix(mode: EditMode) -> Seq<char> {
    match mode {
        EditMode::Crop => "cropped"@,
        EditMode::Resize => "resized"@,
    }
}

/// The suggested name of an edited copy: `{stem}-{cropped|resized}.{extension}`.
pub fn default_export_name(path: &str, mode: EditMode, extension: &str) -> (result: String)
    ensures
        result@ == stem_or_image(path@) + "-"@ + mode_suffix(mode) + "."@ + extension@,
{
    let mut name = stem_or_image_exec(path);
    push_all(&mut name, &chars_of("-"));
    let suffix = match mode {
        EditMode::Crop => chars_of("cropped"),
        EditMode::Resize => chars_of("resized"),
    };
    push_all(&mut name, &suffix);
    push_all(&mut name, &chars_of("."));
    push_all(&mut name, &chars_of(extension));
    string_from_chars(&name)
}


/// The title, message and confirming button of the prompt shown before
/// edit changes are discarded.
pub fn discard_texts(language: crate::persistence::Language) -> (result: (&'static str, &'static str, &'static str))
    ensures
        (result.0@, result.1@, result.2@) == (match language {
            crate::persistence::Language::English => (
                "Discard changes?"@,
                "This will discard your current crop or resize changes."@,
                "Discard"@,
            ),
            crate::persistence::Language::Chinese => (
                "放弃当前修改？"@,
                "此操作将放弃当前的裁剪或尺寸修改。"@,
                "放弃修改"@,
            ),
        }),
{
    match language {
        crate::persistence::Language::English => (
            "Discard changes?",
            "This will discard your current crop or resize changes.",
            "Discard",
        ),
        crate::persistence::Language::Chinese => ("放弃当前修改？", "此操作将放弃当前的裁剪或尺寸修改。", "放弃修改"),
    }
}


/// The number written by decimal digits, most significant first.
pub open spec fn digits_value(digits: Seq<char>) -> int
    decreases digits.len(),
{
    if digits.len() == 0 {
        0
    } else {
        digits_value(digits.drop_last()) * 10 + (digits.last() as int - '0' as int)
    }
}

/// Every character is an ASCII digit.
pub open spec fn all_digits(digits: Seq<char>) -> bool {
    forall|i: int| 0 <= i < digits.len() ==> '0' <= #[trigger] digits[i] <= '9'
}

/// What `str::parse::<u32>` reads from `text`: an optional `+` and at least
/// one decimal digit, of a value that fits a `u32`.
pub open spec fn spec_parse_u32(text: Seq<char>) -> Option<u32> {
    let digits = if text.len() > 0 && text[0] == '+' { text.drop_first() } else { text };
    if digits.len() > 0 && all_digits(digits) && digits_value(digits) <= u32::MAX as int {
        Some(digits_value(digits) as u32)
    } else {
        None
    }
}

/// Reads a decimal `u32` as `str::parse` does.
pub fn parse_u32(text: &str) -> (result: Option<u32>)
    ensures
        result == spec_parse_u32(text@),
{
    let chars = chars_of(text);
    let start: usize = if chars.len() > 0 && chars[0] == '+' { 1 } else { 0 };
    let ghost digits = if text@.len() > 0 && text@[0] == '+' { text@.drop_first() } else { text@ };
    assert(digits =~= chars@.subrange(start as int, chars@.len() as int));
    if start == chars.len() {
        return None;
    }
    let mut value: u64 = 0;
    let mut i: usize = start;
    while i < chars.len()
        invariant
            start <= i <= chars.len(),
            start < chars.len(),
            digits =~= chars@.subrange(start as int, chars@.len() as int),
            digits == (if text@.len() > 0 && text@[0] == '+' { text@.drop_first() } else { text@ }),
            all_digits(chars@.subrange(start as int, i as int)),
            value as int == digits_value(chars@.subrange(start as int, i as int)),
            value <= u32::MAX,
        decreases chars.len() - i,
    {
        let c = chars[i];
        let ghost before = chars@.subrange(start as int, i as int);
        let ghost after = chars@.subrange(start as int, i + 1);
        assert(after.drop_last() =~= before);
        assert(after.last() == c);
        assert(digits[i - start] == c);
        assert(after =~= digits.subrange(0, i - start + 1));
        if c < '0' || c > '9' {
            assert(!all_digits(digits));
            return None;
        }
        let digit: u64 = (c as u64) - ('0' as u64);
        value = value * 10 + digit;
        assert(value as int == digits_value(after));
        assert(all_digits(after)) by {
            assert forall|k: int| 0 <= k < after.len() implies '0' <= #[trigger] after[k] <= '9' by {
                if k < after.len() - 1 {
                    assert(after[k] == before[k]);
                }
            }
        }
        if value > u32::MAX as u64 {
            proof {
                if all_digits(digits) {
                    lemma_digits_value_grows(digits, i - start + 1);
                }
            }
            return None;
        }
        i = i + 1;
    }
    Some(value as u32)
}

/// A prefix of decimal digits is worth no more than the whole.
proof fn lemma_digits_value_grows(digits: Seq<char>, n: int)
    requires
        0 <= n <= digits.len(),
        all_digits(digits),
    ensures
        digits_value(digits.subrange(0, n)) <= digits_value(digits),
    decreases digits.len() - n,
{
    if n < digits.len() {
        lemma_digits_value_grows(digits, n + 1);
        assert(digits.subrange(0, n + 1).drop_last() =~= digits.subrange(0, n));
        assert('0' <= digits[n] <= '9');
        lemma_digits_value_nonneg(digits.subrange(0, n));
    } else {
        assert(digits.subrange(0, n) =~= digits);
    }
}

/// Decimal digits are worth at least zero.
proof fn lemma_digits_value_nonneg(digits: Seq<char>)
    requires
        all_digits(digits),
    ensures
        digits_value(digits) >= 0,
    decreases digits.len(),
{
    if digits.len() > 0 {
        assert(all_digits(digits.drop_last()));
        lemma_digits_value_nonneg(digits.drop_last());
        assert('0' <= digits.last() <= '9');
    }
}

/// What became of a value typed into a resize field.
#[derive(Debug, Clone, Copy, PartialEq, Eq, Structural)]
pub enum ResizeInput {
    /// Not a positive whole number: nothing changed.
    Ignored,
    /// The field's dimension was set.
    Changed,
    /// The field's dimension was set and, with the aspect locked, the other
    /// dimension followed to this value.
    Linked(u32),
}

impl EditSession {
    /// Takes the text of the width field (`is_width`) or of the height
    /// field: a positive number sets that dimension, and with the aspect
    /// locked the other dimension follows (see `linked_dimension`).
    pub fn resize_input(&mut self, is_width: bool, text: &str) -> (result: ResizeInput)
        ensures
            match spec_parse_u32(text@) {
                None => result == ResizeInput::Ignored && *final(self) == *old(self),
                Some(v) => if v == 0 {
                    result == ResizeInput::Ignored && *final(self) == *old(self)
                } else if is_width {
                    let linked = spec_linked_dimension(v, old(self).source_width, old(self).source_height);
                    &&& final(self).resize_width == v
                    &&& (old(self).lock_aspect ==> final(self).resize_height == linked && result == ResizeInput::Linked(linked as u32))
                    &&& (!old(self).lock_aspect ==> final(self).resize_height == old(self).resize_height && result == ResizeInput::Changed)
                    &&& *final(self) == (EditSession { resize_width: final(self).resize_width, resize_height: final(self).resize_height, ..*old(self) })
                } else {
                    let linked = spec_linked_dimension(v, old(self).source_height, old(self).source_width);
                    &&& final(self).resize_height == v
                    &&& (old(self).lock_aspect ==> final(self).resize_width == linked && result == ResizeInput::Linked(linked as u32))
                    &&& (!old(self).lock_aspect ==> final(self).resize_width == old(self).resize_width && result == ResizeInput::Changed)
                    &&& *final(self) == (EditSession { resize_width: final(self).resize_width, resize_height: final(self).resize_height, ..*old(self) })
                },
            },
    {
        let value = match parse_u32(text) {
            Some(v) => v,
            None => return ResizeInput::Ignored,
        };
        if value == 0 {
            return ResizeInput::Ignored;
        }
        if is_width {
            self.resize_width = value;
            if self.lock_aspect {
                let height = linked_dimension(value, self.source_width, self.source_height);
                self.resize_height = height;
                return ResizeInput::Linked(height);
            }
        } else {
            self.resize_height = value;
            if self.lock_aspect {
                let width = linked_dimension(value, self.source_height, self.source_width);
                self.resize_width = width;
                return ResizeInput::Linked(width);
            }
        }
        ResizeInput::Changed
    }

    /// Turns the aspect lock over; locking makes the height follow the
    /// width again, and the new height is given.
    pub fn toggle_aspect_lock(&mut self) -> (result: Option<u32>)
        ensures
            final(self).lock_aspect == !old(self).lock_aspect,
            final(self).resize_width == old(self).resize_width,
            !old(self).lock_aspect ==> result == Some(final(self).resize_height) && final(self).resize_height
                == spec_linked_dimension(old(self).resize_width, old(self).source_width, old(self).source_height),
            old(self).lock_aspect ==> result is None && final(self).resize_height == old(self).resize_height,
            *final(self) == (EditSession {
                lock_aspect: final(self).lock_aspect,
                resize_height: final(self).resize_height,
                ..*old(self)
            }),
    {
        self.lock_aspect = !self.lock_aspect;
        if self.lock_aspect {
            let height = linked_dimension(self.resize_width, self.source_width, self.source_height);
            self.resize_height = height;
            return Some(height);
        }
        None
    }

    /// A new session of `mode` on an image shown at `width` by `height`: the
    /// whole image selected with a free aspect, its own size to resize to,
    /// with the aspect locked.
    pub fn start(mode: EditMode, width: u32, height: u32) -> (result: EditSession)
        ensures
            result == (EditSession {
                mode: Some(mode),
                source_width: width,
                source_height: height,
                crop_rect: CropRect { x: 0, y: 0, width, height },
                crop_aspect: CropAspect::Free,
                resize_width: width,
                resize_height: height,
                lock_aspect: true,
            }),
            !spec_edit_session_has_changes(result),
    {
        EditSession {
            mode: Some(mode),
            source_width: width,
            source_height: height,
            crop_rect: CropRect::new(0, 0, width, height),
            crop_aspect: CropAspect::Free,
            resize_width: width,
            resize_height: height,
            lock_aspect: true,
        }
    }

    /// The whole image selected again, with a free aspect.
    pub fn reset_crop(&mut self)
        ensures
            *final(self) == (EditSession {
                crop_rect: CropRect { x: 0, y: 0, width: old(self).source_width, height: old(self).source_height },
                crop_aspect: CropAspect::Free,
                ..*old(self)
            }),
    {
        self.crop_rect = CropRect::new(0, 0, self.source_width, self.source_height);
        self.crop_aspect = CropAspect::Free;
    }

    /// Back to the source size, with the aspect locked.
    pub fn reset_resize(&mut self)
        ensures
            *final(self) == (EditSession {
                resize_width: old(self).source_width,
                resize_height: old(self).source_height,
                lock_aspect: true,
                ..*old(self)
            }),
    {
        self.resize_width = self.source_width;
        self.resize_height = self.source_height;
        self.lock_aspect = true;
    }
}

/// Why editing is unavailable, if it is: `no-image` without an image;
/// `format` for GIF, SVG, Photoshop and camera raw files (`raw`); `large`
/// while the image is shown by tiles; `loading` while it decodes;
/// `preview` until the image shown has the expected display size.
pub open spec fn spec_editing_unavailable_reason(
    path: Option<Seq<char>>,
    raw: bool,
    large_active: bool,
    decoding: bool,
    expected: Option<(u32, u32)>,
    actual: Option<(u32, u32)>,
) -> Option<Seq<char>> {
    match path {
        None => Some("no-image"@),
        Some(p) => if has_extension(p, "gif"@) || has_extension(p, "svg"@) || has_extension(p, "psd"@)
            || has_extension(p, "psb"@) || raw {
            Some("format"@)
        } else if large_active {
            Some("large"@)
        } else if decoding {
            Some("loading"@)
        } else if expected is None || actual is None || actual != expected {
            Some("preview"@)
        } else {
            None
        },
    }
}

/// Decides why editing is unavailable for the image shown at `path`:
/// `raw` says whether its extension is a camera raw one, `large_active`
/// whether it is shown by tiles, `decoding` whether it still decodes,
/// `expected` its display size and `actual` the size of the image shown.
pub fn editing_unavailable_reason(
    path: Option<&str>,
    raw: bool,
    large_active: bool,
    decoding: bool,
    expected: Option<(u32, u32)>,
    actual: Option<(u32, u32)>,
) -> (result: Option<&'static str>)
    ensures
        match result {
            Some(reason) => spec_editing_unavailable_reason(
                crate::package_checks::opt_text(path), raw, large_active, decoding, expected, actual,
            ) == Some(reason@),
            None => spec_editing_unavailable_reason(
                crate::package_checks::opt_text(path), raw, large_active, decoding, expected, actual,
            ) is None,
        },
{
    let p = match path {
        Some(p) => p,
        None => return Some("no-image"),
    };
    if crate::formats::extension_is(p, "gif") || crate::formats::extension_is(p, "svg")
        || crate::formats::extension_is(p, "psd") || crate::formats::extension_is(p, "psb") || raw {
        return Some("format");
    }
    if large_active {
        return Some("large");
    }
    if decoding {
        return Some("loading");
    }
    match (expected, actual) {
        (Some(e), Some(a)) => if a.0 == e.0 && a.1 == e.1 {
            None
        } else {
            Some("preview")
        },
        _ => Some("preview"),
    }
}

/// A crop session whose selection is not the whole image has changes that
/// closing it would lose, whichever side of the selection moved; one on
/// the whole image with a free aspect has none.
pub proof fn lemma_crop_selection_short_of_the_image_is_a_change(state: EditSession)
    requires
        state.mode == Some(EditMode::Crop),
    ensures
        state.crop_rect.x != 0 || state.crop_rect.y != 0 || state.crop_rect.width != state.source_width
            || state.crop_rect.height != state.source_height ==> spec_edit_session_has_changes(state),
        state.crop_aspect != CropAspect::Free ==> spec_edit_session_has_changes(state),
        state.crop_rect.x == 0 && state.crop_rect.y == 0 && state.crop_rect.width == state.source_width
            && state.crop_rect.height == state.source_height && state.crop_aspect == CropAspect::Free
            ==> !spec_edit_session_has_changes(state),
{
}

/// A resize session to a size other than the image's, or with the aspect
/// unlocked, has changes; one at the image's own size with the aspect
/// locked has none; and with no session open there is nothing to lose.
pub proof fn lemma_resize_to_another_size_is_a_change(state: EditSession)
    ensures
        state.mode == Some(EditMode::Resize) && (state.resize_width != state.source_width || state.resize_height
            != state.source_height || !state.lock_aspect) ==> spec_edit_session_has_changes(state),
        state.mode == Some(EditMode::Resize) && state.resize_width == state.source_width && state.resize_height
            == state.source_height && state.lock_aspect ==> !spec_edit_session_has_changes(state),
        state.mode is None ==> !spec_edit_session_has_changes(state),
{
}

} // verus!
