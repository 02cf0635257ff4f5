//! The image formats Lumia offers to open, with the identifiers each desktop
//! uses for them (macOS uniform type identifiers, Linux MIME types).
use vstd::prelude::*;
use crate::text::{chars_equal, chars_of, insert_sorted, strictly_sorted, views};

verus! {

/// The views of a list of string slices.
pub open spec fn str_views(items: Seq<&str>) -> Seq<Seq<char>> {
    items.map_values(|s: &str| s@)
}

/// One group of file extensions that share a document type.
#[derive(Debug)]
pub struct AssociationFormat {
    pub extensions: Vec<String>,
    pub macos_content_types: Vec<String>,
    pub linux_mime_types: Vec<String>,
}

/// The plain value of an association format.
pub struct FormatView {
    pub extensions: Seq<Seq<char>>,
    pub macos_content_types: Seq<Seq<char>>,
    pub linux_mime_types: Seq<Seq<char>>,
}

impl View for AssociationFormat {
    type V = FormatView;

    open spec fn view(&self) -> FormatView {
        FormatView {
            extensions: views(self.extensions@),
            macos_content_types: views(self.macos_content_types@),
            linux_mime_types: views(self.linux_mime_types@),
        }
    }
}

/// Owned copies of `items`.
pub fn owned_strings(items: &[&str]) -> (result: Vec<String>)
    ensures
        views(result@) == str_views(items@),
{
    let mut result: Vec<String> = Vec::new();
    let mut i: usize = 0;
    while i < items.len()
        invariant
            i <= items.len(),
            result@.len() == i,
            views(result@) == str_views(items@.subrange(0, i as int)),
        decreases items.len() - i,
    {
        let item: String = items[i].to_owned();
        let ghost before = result@;
        result.push(item);
        i = i + 1;
        assert forall|k: int| 0 <= k < i implies #[trigger] views(result@)[k] == str_views(
            items@.subrange(0, i as int),
        )[k] by {
            if k < i - 1 {
                assert(result@[k] == before[k]);
                assert(views(before)[k] == str_views(items@.subrange(0, i - 1))[k]);
            }
        }
        assert(views(result@) =~= str_views(items@.subrange(0, i as int)));
    }
    assert(items@.subrange(0, items@.len() as int) =~= items@);
    result
}

/// Builds one association format.
pub fn format(extensions: &[&str], macos_content_types: &[&str], linux_mime_types: &[&str]) -> (result: AssociationFormat)
    ensures
        result@.extensions == str_views(extensions@),
        result@.macos_content_types == str_views(macos_content_types@),
        result@.linux_mime_types == str_views(linux_mime_types@),
{
    AssociationFormat {
        extensions: owned_strings(extensions),
        macos_content_types: owned_strings(macos_content_types),
        linux_mime_types: owned_strings(linux_mime_types),
    }
}

} // verus!

verus! {

/// The association table: every supported extension grouped with the
/// identifiers that macOS and Linux use for its format.
pub open spec fn format_table() -> Seq<FormatView> {
    seq![
        FormatView { extensions: seq!["avif"@], macos_content_types: seq!["public.avif"@], linux_mime_types: seq!["image/avif"@] },
        FormatView { extensions: seq!["jpg"@, "jpeg"@], macos_content_types: seq!["public.jpeg"@], linux_mime_types: seq!["image/jpeg"@] },
        FormatView { extensions: seq!["png"@], macos_content_types: seq!["public.png"@], linux_mime_types: seq!["image/png"@] },
        FormatView { extensions: seq!["gif"@], macos_content_types: seq!["public.gif"@], linux_mime_types: seq!["image/gif"@] },
        FormatView { extensions: seq!["webp"@], macos_content_types: seq!["org.webmproject.webp"@], linux_mime_types: seq!["image/webp"@] },
        FormatView { extensions: seq!["tif"@, "tiff"@], macos_content_types: seq!["public.tiff"@], linux_mime_types: seq!["image/tiff"@] },
        FormatView { extensions: seq!["tga"@], macos_content_types: seq!["com.truevision.tga-image"@], linux_mime_types: seq!["image/x-tga"@] },
        FormatView { extensions: seq!["dds"@], macos_content_types: seq!["com.ifence.lumia.dds"@], linux_mime_types: seq!["image/x-dds"@] },
        FormatView { extensions: seq!["bmp"@], macos_content_types: seq!["com.microsoft.bmp"@], linux_mime_types: seq!["image/bmp"@] },
        FormatView { extensions: seq!["ico"@], macos_content_types: seq!["com.microsoft.ico"@], linux_mime_types: seq!["image/vnd.microsoft.icon"@] },
        FormatView { extensions: seq!["hdr"@], macos_content_types: seq!["com.ifence.lumia.hdr"@], linux_mime_types: seq!["image/vnd.radiance"@] },
        FormatView { extensions: seq!["exr"@], macos_content_types: seq!["com.ifence.lumia.exr"@], linux_mime_types: seq!["image/x-exr"@] },
        FormatView { extensions: seq!["pbm"@, "pam"@, "ppm"@, "pgm"@], macos_content_types: seq!["com.ifence.lumia.netpbm"@], linux_mime_types: seq!["image/x-portable-bitmap"@, "image/x-portable-anymap"@, "image/x-portable-pixmap"@, "image/x-portable-graymap"@] },
        FormatView { extensions: seq!["ff"@, "farbfeld"@], macos_content_types: seq!["com.ifence.lumia.farbfeld"@], linux_mime_types: seq!["image/x-farbfeld"@] },
        FormatView { extensions: seq!["qoi"@], macos_content_types: seq!["com.ifence.lumia.qoi"@], linux_mime_types: seq!["image/x-qoi"@] },
        FormatView { extensions: seq!["svg"@], macos_content_types: seq!["public.svg-image"@], linux_mime_types: seq!["image/svg+xml"@] },
        FormatView { extensions: seq!["heic"@, "heif"@], macos_content_types: seq!["public.heic"@, "public.heif"@], linux_mime_types: seq!["image/heic"@, "image/heif"@] },
        FormatView { extensions: seq!["psd"@, "psb"@], macos_content_types: seq!["com.adobe.photoshop-image"@, "com.ifence.lumia.photoshop-large-document"@], linux_mime_types: seq!["image/vnd.adobe.photoshop"@] },
    ]
}

/// The plain values of a list of formats.
pub open spec fn format_views(formats: Seq<AssociationFormat>) -> Seq<FormatView> {
    formats.map_values(|f: AssociationFormat| f@)
}

/// Builds the association table.
pub fn association_formats() -> (result: Vec<AssociationFormat>)
    ensures
        format_views(result@) == format_table(),
{
    let mut formats: Vec<AssociationFormat> = Vec::new();
    let ghost table = format_table();
    let f = format(&["avif"], &["public.avif"], &["image/avif"]);
    assert(f@.extensions =~= format_table()[0].extensions);
    assert(f@.macos_content_types =~= format_table()[0].macos_content_types);
    assert(f@.linux_mime_types =~= format_table()[0].linux_mime_types);
    formats.push(f);
    let f = format(&["jpg", "jpeg"], &["public.jpeg"], &["image/jpeg"]);
    assert(f@.extensions =~= format_table()[1].extensions);
    assert(f@.macos_content_types =~= format_table()[1].macos_content_types);
    assert(f@.linux_mime_types =~= format_table()[1].linux_mime_types);
    formats.push(f);
    let f = format(&["png"], &["public.png"], &["image/png"]);
    assert(f@.extensions =~= format_table()[2].extensions);
    assert(f@.macos_content_types =~= format_table()[2].macos_content_types);
    assert(f@.linux_mime_types =~= format_table()[2].linux_mime_types);
    formats.push(f);
    let f = format(&["gif"], &["public.gif"], &["image/gif"]);
    assert(f@.extensions =~= format_table()[3].extensions);
    assert(f@.macos_content_types =~= format_table()[3].macos_content_types);
    assert(f@.linux_mime_types =~= format_table()[3].linux_mime_types);
    formats.push(f);
    let f = format(&["webp"], &["org.webmproject.webp"], &["image/webp"]);
    assert(f@.extensions =~= format_table()[4].extensions);
    assert(f@.macos_content_types =~= format_table()[4].macos_content_types);
    assert(f@.linux_mime_types =~= format_table()[4].linux_mime_types);
    formats.push(f);
    let f = format(&["tif", "tiff"], &["public.tiff"], &["image/tiff"]);
    assert(f@.extensions =~= format_table()[5].extensions);
    assert(f@.macos_content_types =~= format_table()[5].macos_content_types);
    assert(f@.linux_mime_types =~= format_table()[5].linux_mime_types);
    formats.push(f);
    let f = format(&["tga"], &["com.truevision.tga-image"], &["image/x-tga"]);
    assert(f@.extensions =~= format_table()[6].extensions);
    assert(f@.macos_content_types =~= format_table()[6].macos_content_types);
    assert(f@.linux_mime_types =~= format_table()[6].linux_mime_types);
    formats.push(f);
    let f = format(&["dds"], &["com.ifence.lumia.dds"], &["image/x-dds"]);
    assert(f@.extensions =~= format_table()[7].extensions);
    assert(f@.macos_content_types =~= format_table()[7].macos_content_types);
    assert(f@.linux_mime_types =~= format_table()[7].linux_mime_types);
    formats.push(f);
    let f = format(&["bmp"], &["com.microsoft.bmp"], &["image/bmp"]);
    assert(f@.extensions =~= format_table()[8].extensions);
    assert(f@.macos_content_types =~= format_table()[8].macos_content_types);
    assert(f@.linux_mime_types =~= format_table()[8].linux_mime_types);
    formats.push(f);
    let f = format(&["ico"], &["com.microsoft.ico"], &["image/vnd.microsoft.icon"]);
    assert(f@.extensions =~= format_table()[9].extensions);
    assert(f@.macos_content_types =~= format_table()[9].macos_content_types);
    assert(f@.linux_mime_types =~= format_table()[9].linux_mime_types);
    formats.push(f);
    let f = format(&["hdr"], &["com.ifence.lumia.hdr"], &["image/vnd.radiance"]);
    assert(f@.extensions =~= format_table()[10].extensions);
    assert(f@.macos_content_types =~= format_table()[10].macos_content_types);
    assert(f@.linux_mime_types =~= format_table()[10].linux_mime_types);
    formats.push(f);
    let f = format(&["exr"], &["com.ifence.lumia.exr"], &["image/x-exr"]);
    assert(f@.extensions =~= format_table()[11].extensions);
    assert(f@.macos_content_types =~= format_table()[11].macos_content_types);
    assert(f@.linux_mime_types =~= format_table()[11].linux_mime_types);
    formats.push(f);
    let f = format(&["pbm", "pam", "ppm", "pgm"], &["com.ifence.lumia.netpbm"], &["image/x-portable-bitmap", "image/x-portable-anymap", "image/x-portable-pixmap", "image/x-portable-graymap"]);
    assert(f@.extensions =~= format_table()[12].extensions);
    assert(f@.macos_content_types =~= format_table()[12].macos_content_types);
    assert(f@.linux_mime_types =~= format_table()[12].linux_mime_types);
    formats.push(f);
    let f = format(&["ff", "farbfeld"], &["com.ifence.lumia.farbfeld"], &["image/x-farbfeld"]);
    assert(f@.extensions =~= format_table()[13].extensions);
    assert(f@.macos_content_types =~= format_table()[13].macos_content_types);
    assert(f@.linux_mime_types =~= format_table()[13].linux_mime_types);
    formats.push(f);
    let f = format(&["qoi"], &["com.ifence.lumia.qoi"], &["image/x-qoi"]);
    assert(f@.extensions =~= format_table()[14].extensions);
    assert(f@.macos_content_types =~= format_table()[14].macos_content_types);
    assert(f@.linux_mime_types =~= format_table()[14].linux_mime_types);
    formats.push(f);
    let f = format(&["svg"], &["public.svg-image"], &["image/svg+xml"]);
    assert(f@.extensions =~= format_table()[15].extensions);
    assert(f@.macos_content_types =~= format_table()[15].macos_content_types);
    assert(f@.linux_mime_types =~= format_table()[15].linux_mime_types);
    formats.push(f);
    let f = format(&["heic", "heif"], &["public.heic", "public.heif"], &["image/heic", "image/heif"]);
    assert(f@.extensions =~= format_table()[16].extensions);
    assert(f@.macos_content_types =~= format_table()[16].macos_content_types);
    assert(f@.linux_mime_types =~= format_table()[16].linux_mime_types);
    formats.push(f);
    let f = format(&["psd", "psb"], &["com.adobe.photoshop-image", "com.ifence.lumia.photoshop-large-document"], &["image/vnd.adobe.photoshop"]);
    assert(f@.extensions =~= format_table()[17].extensions);
    assert(f@.macos_content_types =~= format_table()[17].macos_content_types);
    assert(f@.linux_mime_types =~= format_table()[17].linux_mime_types);
    formats.push(f);
    assert(format_views(formats@) =~= format_table());
    formats
}

} // verus!

verus! {

/// Whether `list` holds a string equal to `item`.
pub fn contains_string(list: &Vec<String>, item: &str) -> (result: bool)
    ensures
        result == views(list@).contains(item@),
{
    let key = chars_of(item);
    let mut i: usize = 0;
    while i < list.len()
        invariant
            i <= list.len(),
            key@ == item@,
            forall|k: int| 0 <= k < i ==> views(list@)[k] != item@,
        decreases list.len() - i,
    {
        let current = chars_of(list[i].as_str());
        if chars_equal(&current, &key) {
            assert(views(list@)[i as int] == item@);
            return true;
        }
        i = i + 1;
    }
    false
}

/// Extensions of the formats whose Linux MIME types include `mime`.
pub open spec fn linux_mime_extensions(mime: Seq<char>) -> Set<Seq<char>> {
    Set::new(
        |e: Seq<char>|
            exists|i: int|
                0 <= i < format_table().len() && (#[trigger] format_table()[i]).linux_mime_types.contains(mime)
                    && format_table()[i].extensions.contains(e),
    )
}

/// Extensions of the formats whose macOS content types include `content_type`.
pub open spec fn macos_content_type_extensions(content_type: Seq<char>) -> Set<Seq<char>> {
    Set::new(
        |e: Seq<char>|
            exists|i: int|
                0 <= i < format_table().len() && (#[trigger] format_table()[i]).macos_content_types.contains(
                    content_type,
                ) && format_table()[i].extensions.contains(e),
    )
}

/// Adds every string of `source` to the sorted set `target`.
fn insert_all_sorted(target: &mut Vec<String>, source: &Vec<String>)
    requires
        strictly_sorted(views(old(target)@)),
    ensures
        strictly_sorted(views(final(target)@)),
        views(final(target)@).to_set() == views(old(target)@).to_set().union(views(source@).to_set()),
{
    let mut i: usize = 0;
    while i < source.len()
        invariant
            i <= source.len(),
            strictly_sorted(views(target@)),
            views(target@).to_set() == views(old(target)@).to_set().union(
                views(source@.subrange(0, i as int)).to_set(),
            ),
        decreases source.len() - i,
    {
        let ghost before = views(target@).to_set();
        insert_sorted(target, source[i].clone());
        proof {
            assert(views(source@.subrange(0, i + 1)) =~= views(source@.subrange(0, i as int)).push(
                source@[i as int]@,
            ));
            views(source@.subrange(0, i as int)).lemma_push_to_set_commute(source@[i as int]@);
            assert(views(source@.subrange(0, i + 1)).to_set() =~= views(
                source@.subrange(0, i as int),
            ).to_set().insert(source@[i as int]@));
            assert(views(target@).to_set() =~= views(old(target)@).to_set().union(
                views(source@.subrange(0, i + 1)).to_set(),
            ));
        }
        i = i + 1;
    }
    assert(source@.subrange(0, source@.len() as int) =~= source@);
}

} // verus!

verus! {

/// Extensions of the first `n` formats of `table` that `selects`.
pub open spec fn extensions_where(
    table: Seq<FormatView>,
    n: int,
    selects: spec_fn(FormatView) -> bool,
) -> Set<Seq<char>> {
    Set::new(
        |e: Seq<char>|
            exists|i: int| 0 <= i < n && #[trigger] selects(table[i]) && table[i].extensions.contains(e),
    )
}

/// Collects the extensions of the table formats that `selects`, sorted.
fn collect_extensions(Ghost(selects): Ghost<spec_fn(FormatView) -> bool>, flags: &Vec<bool>) -> (result: Vec<String>)
    requires
        flags@.len() == format_table().len(),
        forall|i: int| 0 <= i < flags@.len() ==> flags@[i] == selects(#[trigger] format_table()[i]),
    ensures
        strictly_sorted(views(result@)),
        views(result@).to_set() == extensions_where(format_table(), format_table().len() as int, selects),
{
    let formats = association_formats();
    let mut result: Vec<String> = Vec::new();
    assert(views(result@).to_set() =~= extensions_where(format_table(), 0, selects));
    let mut i: usize = 0;
    while i < formats.len()
        invariant
            i <= formats.len(),
            format_views(formats@) == format_table(),
            flags@.len() == format_table().len(),
            forall|k: int| 0 <= k < flags@.len() ==> flags@[k] == selects(#[trigger] format_table()[k]),
            strictly_sorted(views(result@)),
            views(result@).to_set() == extensions_where(format_table(), i as int, selects),
        decreases formats.len() - i,
    {
        assert(format_views(formats@)[i as int] == formats@[i as int]@);
        let ghost before = views(result@).to_set();
        if flags[i] {
            insert_all_sorted(&mut result, &formats[i].extensions);
        }
        i = i + 1;
        assert(views(result@).to_set() =~= extensions_where(format_table(), i as int, selects)) by {
            let t = format_table();
            assert forall|e: Seq<char>| views(result@).to_set().contains(e) implies extensions_where(
                t,
                i as int,
                selects,
            ).contains(e) by {
                if !before.contains(e) {
                    assert(selects(t[i - 1]) && t[i - 1].extensions.contains(e));
                } else {
                    let k = choose|k: int|
                        0 <= k < i - 1 && #[trigger] selects(t[k]) && t[k].extensions.contains(e);
                    assert(0 <= k < i && selects(t[k]) && t[k].extensions.contains(e));
                }
            }
            assert forall|e: Seq<char>| extensions_where(t, i as int, selects).contains(e) implies views(
                result@,
            ).to_set().contains(e) by {
                let k = choose|k: int| 0 <= k < i && #[trigger] selects(t[k]) && t[k].extensions.contains(e);
                if k < i - 1 {
                    assert(before.contains(e));
                } else {
                    assert(views(formats@[k].extensions@).to_set().contains(e));
                }
            }
        }
    }
    result
}

/// The extensions whose formats use the Linux MIME type `mime`, sorted.
pub fn extensions_for_linux_mime(mime: &str) -> (result: Vec<String>)
    ensures
        strictly_sorted(views(result@)),
        views(result@).to_set() == linux_mime_extensions(mime@),
{
    let formats = association_formats();
    let mut flags: Vec<bool> = Vec::new();
    let ghost selects = |f: FormatView| f.linux_mime_types.contains(mime@);
    let mut i: usize = 0;
    while i < formats.len()
        invariant
            i <= formats.len(),
            format_views(formats@) == format_table(),
            flags@.len() == i,
            selects == (|f: FormatView| f.linux_mime_types.contains(mime@)),
            forall|k: int| 0 <= k < i ==> flags@[k] == selects(#[trigger] format_table()[k]),
        decreases formats.len() - i,
    {
        assert(format_views(formats@)[i as int] == formats@[i as int]@);
        flags.push(contains_string(&formats[i].linux_mime_types, mime));
        i = i + 1;
    }
    let result = collect_extensions(Ghost(selects), &flags);
    assert(views(result@).to_set() =~= linux_mime_extensions(mime@));
    result
}

/// The extensions whose formats use the macOS content type `content_type`, sorted.
pub fn extensions_for_macos_content_type(content_type: &str) -> (result: Vec<String>)
    ensures
        strictly_sorted(views(result@)),
        views(result@).to_set() == macos_content_type_extensions(content_type@),
{
    let formats = association_formats();
    let mut flags: Vec<bool> = Vec::new();
    let ghost selects = |f: FormatView| f.macos_content_types.contains(content_type@);
    let mut i: usize = 0;
    while i < formats.len()
        invariant
            i <= formats.len(),
            format_views(formats@) == format_table(),
            flags@.len() == i,
            selects == (|f: FormatView| f.macos_content_types.contains(content_type@)),
            forall|k: int| 0 <= k < i ==> flags@[k] == selects(#[trigger] format_table()[k]),
        decreases formats.len() - i,
    {
        assert(format_views(formats@)[i as int] == formats@[i as int]@);
        flags.push(contains_string(&formats[i].macos_content_types, content_type));
        i = i + 1;
    }
    let result = collect_extensions(Ghost(selects), &flags);
    assert(views(result@).to_set() =~= macos_content_type_extensions(content_type@));
    result
}

} // verus!

verus! {

/// Every Linux MIME type of the table.
pub open spec fn all_linux_mime_types() -> Set<Seq<char>> {
    Set::new(
        |m: Seq<char>|
            exists|i: int|
                0 <= i < format_table().len() && (#[trigger] format_table()[i]).linux_mime_types.contains(m),
    )
}

/// The distinct Linux MIME types of the table, sorted.
pub fn unique_mime_types() -> (result: Vec<String>)
    ensures
        strictly_sorted(views(result@)),
        views(result@).to_set() == all_linux_mime_types(),
{
    let formats = association_formats();
    let mut result: Vec<String> = Vec::new();
    let mut i: usize = 0;
    while i < formats.len()
        invariant
            i <= formats.len(),
            format_views(formats@) == format_table(),
            strictly_sorted(views(result@)),
            views(result@).to_set() == Set::new(
                |m: Seq<char>|
                    exists|k: int| 0 <= k < i && (#[trigger] format_table()[k]).linux_mime_types.contains(m),
            ),
        decreases formats.len() - i,
    {
        assert(format_views(formats@)[i as int] == formats@[i as int]@);
        let ghost before = views(result@).to_set();
        insert_all_sorted(&mut result, &formats[i].linux_mime_types);
        i = i + 1;
        assert(views(result@).to_set() =~= Set::new(
            |m: Seq<char>|
                exists|k: int| 0 <= k < i && (#[trigger] format_table()[k]).linux_mime_types.contains(m),
        )) by {
            assert forall|m: Seq<char>| views(result@).to_set().contains(m) implies exists|k: int|
                0 <= k < i && (#[trigger] format_table()[k]).linux_mime_types.contains(m) by {
                if !before.contains(m) {
                    assert(format_table()[i - 1].linux_mime_types.contains(m));
                }
            }
        }
    }
    assert(views(result@).to_set() =~= all_linux_mime_types());
    result
}

/// `items` joined with `sep` between neighbours.
pub open spec fn join_with(items: Seq<Seq<char>>, sep: Seq<char>) -> Seq<char>
    decreases items.len(),
{
    if items.len() == 0 {
        Seq::<char>::empty()
    } else if items.len() == 1 {
        items[0]
    } else {
        join_with(items.drop_last(), sep) + sep + items.last()
    }
}

/// Joins strings with a separator.
pub fn join_strings(items: &Vec<String>, sep: &str) -> (result: String)
    ensures
        result@ == join_with(views(items@), sep@),
{
    let sep_chars = chars_of(sep);
    let mut out: Vec<char> = Vec::new();
    let mut i: usize = 0;
    while i < items.len()
        invariant
            i <= items.len(),
            sep_chars@ == sep@,
            out@ == join_with(views(items@.subrange(0, i as int)), sep@),
        decreases items.len() - i,
    {
        let part = chars_of(items[i].as_str());
        if i > 0 {
            crate::text::push_all(&mut out, &sep_chars);
        }
        crate::text::push_all(&mut out, &part);
        i = i + 1;
        let ghost joined = views(items@.subrange(0, i as int));
        assert(joined.drop_last() =~= views(items@.subrange(0, i - 1)));
        if i == 1 {
            assert(out@ =~= joined[0]);
        }
    }
    assert(items@.subrange(0, items@.len() as int) =~= items@);
    crate::text::string_from_chars(&out)
}

/// The `MimeType=` list of the desktop entry: the distinct MIME types,
/// sorted, separated by `;`.
pub fn mime_types() -> (result: String)
    ensures
        exists|types: Seq<Seq<char>>|
            strictly_sorted(types) && types.to_set() == all_linux_mime_types() && result@ == join_with(
                types,
                ";"@,
            ),
{
    let types = unique_mime_types();
    join_strings(&types, ";")
}

/// Characters that the `Exec=` key of a desktop entry escapes with a backslash.
pub open spec fn needs_exec_escape(c: char) -> bool {
    c == '\\' || c == '"' || c == '`' || c == '$'
}

/// `s` with a backslash before every character that needs escaping.
pub open spec fn exec_escape(s: Seq<char>) -> Seq<char>
    decreases s.len(),
{
    if s.len() == 0 {
        Seq::<char>::empty()
    } else {
        exec_escape(s.drop_last()) + if needs_exec_escape(s.last()) {
            seq!['\\', s.last()]
        } else {
            seq![s.last()]
        }
    }
}

/// The quoted executable path of a desktop entry's `Exec=` key.
pub fn desktop_exec_path(path: &str) -> (result: String)
    ensures
        result@ == seq!['"'] + exec_escape(path@) + seq!['"'],
{
    let chars = chars_of(path);
    let mut out: Vec<char> = Vec::new();
    out.push('"');
    let mut i: usize = 0;
    while i < chars.len()
        invariant
            i <= chars.len(),
            out@ == seq!['"'] + exec_escape(chars@.subrange(0, i as int)),
        decreases chars.len() - i,
    {
        let c = chars[i];
        if c == '\\' || c == '"' || c == '`' || c == '$' {
            out.push('\\');
        }
        out.push(c);
        i = i + 1;
        assert(chars@.subrange(0, i as int).drop_last() =~= chars@.subrange(0, i - 1));
        assert(out@ =~= seq!['"'] + exec_escape(chars@.subrange(0, i as int)));
    }
    out.push('"');
    assert(chars@.subrange(0, chars@.len() as int) =~= chars@);
    crate::text::string_from_chars(&out)
}

} // verus!

verus! {

/// The desktop entry that Lumia installs on Linux.
pub open spec fn desktop_file_id() -> Seq<char> {
    "lumia.desktop"@
}

/// What to do with the default handler of one MIME type when applying a
/// selection on Linux.
#[derive(Debug, PartialEq, Eq)]
pub enum MimeAction {
    /// Make Lumia the default, first remembering `remember` as the handler
    /// to restore later (kept only when none is remembered yet).
    TakeDefault { remember: Option<String> },
    /// Hand the type back to the remembered handler and forget it.
    RestorePrevious(String),
    /// Lumia is the default but no previous handler is known: the user must
    /// pick one by hand for these extensions.
    ManualRestore,
    /// Forget any remembered handler.
    ForgetPrevious,
    /// Leave everything as it is.
    Keep,
}

/// The current handler view of an optional handler name.
pub open spec fn opt_view(value: Option<&str>) -> Option<Seq<char>> {
    match value {
        Some(v) => Some(v@),
        None => None,
    }
}

/// Decides how to update the default handler of one MIME type from whether
/// the type is selected, its current default handler, and the remembered
/// previous handler.
pub fn plan_mime_default(desired: bool, current: Option<&str>, previous: Option<&str>) -> (result: MimeAction)
    ensures
        match result {
            MimeAction::TakeDefault { remember } => desired && opt_view(current) != Some(
                desktop_file_id(),
            ) && (remember is Some <==> (current is Some && current->0@.len() > 0)) && (
            remember is Some ==> remember->0@ == current->0@),
            MimeAction::RestorePrevious(p) => !desired && opt_view(current) == Some(desktop_file_id())
                && previous is Some && p@ == previous->0@,
            MimeAction::ManualRestore => !desired && opt_view(current) == Some(desktop_file_id())
                && previous is None,
            MimeAction::ForgetPrevious => !desired && opt_view(current) != Some(desktop_file_id()),
            MimeAction::Keep => desired && opt_view(current) == Some(desktop_file_id()),
        },
{
    let desktop = chars_of("lumia.desktop");
    let lumia_is_default = match current {
        Some(c) => chars_equal(&chars_of(c), &desktop),
        None => false,
    };
    if desired && !lumia_is_default {
        let remember = match current {
            Some(c) => if !c.is_empty() {
                Some(c.to_owned())
            } else {
                None
            },
            None => None,
        };
        MimeAction::TakeDefault { remember }
    } else if !desired && lumia_is_default {
        match previous {
            Some(p) => MimeAction::RestorePrevious(p.to_owned()),
            None => MimeAction::ManualRestore,
        }
    } else if !desired {
        MimeAction::ForgetPrevious
    } else {
        MimeAction::Keep
    }
}

/// When Lumia's managed defaults are restored, the handler to give a MIME
/// type back to: its remembered previous handler, but only while Lumia is
/// still its default; `None` leaves a type the user has since reassigned.
pub fn restore_handler(current: Option<&str>, previous: &str) -> (result: Option<String>)
    ensures
        result is Some <==> opt_view(current) == Some(desktop_file_id()),
        result matches Some(handler) ==> handler@ == previous@,
{
    let lumia_is_default = match current {
        Some(c) => chars_equal(&chars_of(c), &chars_of("lumia.desktop")),
        None => false,
    };
    if lumia_is_default {
        Some(previous.to_owned())
    } else {
        None
    }
}

/// The Linux data directory: `$XDG_DATA_HOME`, else `$HOME/.local/share`.
pub open spec fn spec_data_home(xdg_data_home: Option<Seq<char>>, home: Option<Seq<char>>) -> Option<Seq<char>> {
    match xdg_data_home {
        Some(dir) => Some(dir),
        None => match home {
            Some(h) => Some(crate::text::join(h, ".local/share"@, false)),
            None => None,
        },
    }
}

/// The Linux data directory from the values of `XDG_DATA_HOME` and `HOME`;
/// an error when neither is set.
pub fn data_home(xdg_data_home: Option<&str>, home: Option<&str>) -> (result: Result<String, String>)
    ensures
        match spec_data_home(opt_view(xdg_data_home), opt_view(home)) {
            Some(dir) => result is Ok && result->Ok_0@ == dir,
            None => result is Err,
        },
{
    match xdg_data_home {
        Some(dir) => Ok(crate::text::string_from_chars(&chars_of(dir))),
        None => match home {
            Some(h) => Ok(crate::text::string_from_chars(&crate::text::join_exec(&chars_of(h), &chars_of(".local/share"), false))),
            None => Err("neither XDG_DATA_HOME nor HOME is set".to_owned()),
        },
    }
}

/// Where applications are registered on Linux, from the values of
/// `XDG_DATA_HOME` and `HOME`; an error when neither is set.
pub fn applications_dir(xdg_data_home: Option<&str>, home: Option<&str>) -> (result: Result<String, String>)
    ensures
        match spec_data_home(opt_view(xdg_data_home), opt_view(home)) {
            Some(dir) => result is Ok && result->Ok_0@ == crate::text::join(dir, "applications"@, false),
            None => result is Err,
        },
{
    let data_home: Vec<char> = match xdg_data_home {
        Some(dir) => chars_of(dir),
        None => match home {
            Some(h) => crate::text::join_exec(&chars_of(h), &chars_of(".local/share"), false),
            None => {
                return Err("neither XDG_DATA_HOME nor HOME is set".to_owned());
            },
        },
    };
    let dir = crate::text::join_exec(&data_home, &chars_of("applications"), false);
    Ok(crate::text::string_from_chars(&dir))
}

/// On Linux the desktop applies associations directly, so there is no
/// settings page to open: always an error that says so.
pub fn open_default_apps_settings() -> (result: Result<(), String>)
    ensures
        result matches Err(message) && message@ == "the Linux desktop applies file associations directly"@,
{
    Err("the Linux desktop applies file associations directly".to_owned())
}

} // verus!

verus! {

/// The extensions of `formats`, in table order.
pub open spec fn flatten_extensions(formats: Seq<FormatView>) -> Seq<Seq<char>>
    decreases formats.len(),
{
    if formats.len() == 0 {
        Seq::<Seq<char>>::empty()
    } else {
        flatten_extensions(formats.drop_last()) + formats.last().extensions
    }
}

/// Every extension Lumia can open, in table order.
pub open spec fn spec_supported_extensions() -> Seq<Seq<char>> {
    flatten_extensions(format_table())
}

/// Lists the supported extensions in table order.
pub fn supported_image_extensions() -> (result: Vec<String>)
    ensures
        views(result@) == spec_supported_extensions(),
{
    let formats = association_formats();
    let mut result: Vec<String> = Vec::new();
    let mut i: usize = 0;
    while i < formats.len()
        invariant
            i <= formats.len(),
            format_views(formats@) == format_table(),
            views(result@) == flatten_extensions(format_table().subrange(0, i as int)),
        decreases formats.len() - i,
    {
        assert(format_views(formats@)[i as int] == formats@[i as int]@);
        let extensions = &formats[i].extensions;
        let mut j: usize = 0;
        let ghost start = views(result@);
        while j < extensions.len()
            invariant
                j <= extensions.len(),
                views(result@) == start + views(extensions@.subrange(0, j as int)),
            decreases extensions.len() - j,
        {
            let ghost before = result@;
            result.push(extensions[j].clone());
            j = j + 1;
            assert(views(result@) =~= start + views(extensions@.subrange(0, j as int))) by {
                assert(views(result@) =~= views(before).push(extensions@[j - 1]@));
            }
        }
        assert(extensions@.subrange(0, extensions@.len() as int) =~= extensions@);
        assert(format_table().subrange(0, i + 1).drop_last() =~= format_table().subrange(0, i as int));
        i = i + 1;
    }
    assert(format_table().subrange(0, format_table().len() as int) =~= format_table());
    result
}

/// Whether `extension` is one Lumia can open (exact, lowercase match).
pub fn is_supported_image_extension(extension: &str) -> (result: bool)
    ensures
        result == spec_supported_extensions().contains(extension@),
{
    let supported = supported_image_extensions();
    contains_string(&supported, extension)
}

/// The selected extensions Lumia supports, in order.
pub open spec fn spec_supported_selection(selected: Seq<Seq<char>>) -> Seq<Seq<char>> {
    selected.filter(|e: Seq<char>| spec_supported_extensions().contains(e))
}

/// Keeps the selected extensions that Lumia supports.
pub fn supported_selection(selected: &Vec<String>) -> (result: Vec<String>)
    ensures
        views(result@) == spec_supported_selection(views(selected@)),
{
    let mut result: Vec<String> = Vec::new();
    let mut i: usize = 0;
    while i < selected.len()
        invariant
            i <= selected.len(),
            views(result@) == spec_supported_selection(views(selected@).take(i as int)),
        decreases selected.len() - i,
    {
        proof {
            reveal(Seq::filter);
        }
        assert(views(selected@).take(i + 1).drop_last() =~= views(selected@).take(i as int));
        assert(views(selected@).take(i + 1).last() == selected@[i as int]@);
        if is_supported_image_extension(&selected[i]) {
            let ghost before = views(result@);
            result.push(selected[i].clone());
            assert(views(result@) =~= before.push(selected@[i as int]@));
        }
        i = i + 1;
    }
    assert(views(selected@).take(selected.len() as int) =~= views(selected@));
    result
}

/// Whether any extension of the MIME type `mime` is selected.
pub open spec fn spec_mime_selected(mime: Seq<char>, selected: Seq<Seq<char>>) -> bool {
    exists|e: Seq<char>| linux_mime_extensions(mime).contains(e) && selected.contains(e)
}

/// Whether Lumia should be the default handler of `mime` for this
/// selection.
pub fn mime_selected(mime: &str, selected: &Vec<String>) -> (result: bool)
    ensures
        result == spec_mime_selected(mime@, views(selected@)),
{
    let extensions = extensions_for_linux_mime(mime);
    let mut i: usize = 0;
    while i < extensions.len()
        invariant
            i <= extensions.len(),
            views(extensions@).to_set() == linux_mime_extensions(mime@),
            forall|k: int| 0 <= k < i ==> !views(selected@).contains(#[trigger] views(extensions@)[k]),
        decreases extensions.len() - i,
    {
        if contains_string(selected, &extensions[i]) {
            assert(views(extensions@).to_set().contains(views(extensions@)[i as int]));
            return true;
        }
        i = i + 1;
    }
    proof {
        assert forall|e: Seq<char>| linux_mime_extensions(mime@).contains(e) implies !views(selected@).contains(e) by {
            assert(views(extensions@).to_set().contains(e));
            let k = choose|k: int| 0 <= k < views(extensions@).len() && views(extensions@)[k] == e;
        }
    }
    false
}

/// The desktop entry Lumia installs: it runs the executable on one file and
/// claims every supported MIME type.
pub open spec fn spec_desktop_entry(exe_path: Seq<char>, mimes: Seq<char>) -> Seq<char> {
    "[Desktop Entry]\nType=Application\nName=Lumia\nComment=Fast and lightweight image viewer\nExec="@
        + (seq!['"'] + exec_escape(exe_path) + seq!['"']) + " %f\nIcon=lumia\nTerminal=false\nCategories=Graphics;Viewer;\nMimeType="@
        + mimes + ";\nNoDisplay=false\nStartupNotify=false\n"@
}

/// Writes the desktop entry Lumia installs for the executable at
/// `exe_path`.
pub fn desktop_entry(exe_path: &str) -> (result: String)
    ensures
        exists|types: Seq<Seq<char>>|
            strictly_sorted(types) && types.to_set() == all_linux_mime_types() && result@ == spec_desktop_entry(
                exe_path@,
                join_with(types, ";"@),
            ),
{
    let types = unique_mime_types();
    let mimes = join_strings(&types, ";");
    let exec = desktop_exec_path(exe_path);
    let head = crate::text::concat3(
        "[Desktop Entry]\nType=Application\nName=Lumia\nComment=Fast and lightweight image viewer\nExec=",
        exec.as_str(),
        " %f\nIcon=lumia\nTerminal=false\nCategories=Graphics;Viewer;\nMimeType=",
    );
    let entry = crate::text::concat3(head.as_str(), mimes.as_str(), ";\nNoDisplay=false\nStartupNotify=false\n");
    assert(entry@ =~= spec_desktop_entry(exe_path@, join_with(views(types@), ";"@)));
    entry
}

} // verus!
