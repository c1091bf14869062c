//! The registry that maps MIME types to clipboard formats and back.

use vstd::prelude::*;

verus! {

/// Unicode text (UTF-16LE).
pub const CF_UNICODETEXT: u32 = 13;

/// ANSI text.
pub const CF_TEXT: u32 = 1;

/// Device-independent bitmap.
pub const CF_DIB: u32 = 8;

/// File drop list.
pub const CF_HDROP: u32 = 15;

/// Wave audio.
pub const CF_WAVE: u32 = 12;

/// RIFF audio.
pub const CF_RIFF: u32 = 11;

/// HTML, registered under the name "HTML Format".
pub const CF_HTML: u32 = 0xD010;

/// PNG image.
pub const CF_PNG: u32 = 0xD011;

/// JPEG image.
pub const CF_JPEG: u32 = 0xD012;

/// GIF image.
pub const CF_GIF: u32 = 0xD013;

/// Rich Text Format.
pub const CF_RTF: u32 = 0xD014;

/// File list metadata (registered name "FileGroupDescriptorW").
pub const CF_FILEGROUPDESCRIPTORW: u32 = 49430;

/// File contents retrieval (registered name "FileContents").
pub const CF_FILECONTENTS: u32 = 49338;

/// A clipboard format: a numeric id and, for registered formats, a name.
#[derive(Debug, Clone, PartialEq, Eq, Hash)]
pub struct ClipboardFormat {
    /// The format id.
    pub id: u32,
    /// The registered name, if any.
    pub name: Option<String>,
}

/// A format as a value: its id and the characters of its name.
pub type FormatView = (u32, Option<Seq<char>>);

impl View for ClipboardFormat {
    type V = FormatView;

    open spec fn view(&self) -> FormatView {
        (
            self.id,
            match self.name {
                Some(n) => Some(n@),
                None => None,
            },
        )
    }
}

/// The values of a list of formats.
pub open spec fn format_views(v: Seq<ClipboardFormat>) -> Seq<FormatView> {
    v.map_values(|f: ClipboardFormat| f@)
}

/// Whether two strings are equal.
pub fn str_eq(a: &str, b: &str) -> (r: bool)
    ensures
        r == (a@ == b@),
{
    a.to_owned() == b.to_owned()
}

impl ClipboardFormat {
    /// A format with an id and no name.
    pub fn new(id: u32) -> (r: Self)
        ensures
            r@ == (id, None::<Seq<char>>),
    {
        ClipboardFormat { id, name: None }
    }

    /// A format with an id and a registered name.
    pub fn with_name(id: u32, name: &str) -> (r: Self)
        ensures
            r@ == (id, Some(name@)),
    {
        ClipboardFormat { id, name: Some(name.to_owned()) }
    }

    /// Unicode text.
    pub fn unicode_text() -> (r: Self)
        ensures
            r@ == (CF_UNICODETEXT, None::<Seq<char>>),
    {
        Self::new(CF_UNICODETEXT)
    }

    /// HTML.
    pub fn html() -> (r: Self)
        ensures
            r@ == (CF_HTML, Some("HTML Format"@)),
    {
        Self::with_name(CF_HTML, "HTML Format")
    }

    /// PNG.
    pub fn png() -> (r: Self)
        ensures
            r@ == (CF_PNG, Some("PNG"@)),
    {
        Self::with_name(CF_PNG, "PNG")
    }

    /// File drop list.
    pub fn file_drop() -> (r: Self)
        ensures
            r@ == (CF_HDROP, None::<Seq<char>>),
    {
        Self::new(CF_HDROP)
    }
}

/// Some format of the list has this id.
pub open spec fn has_id(acc: Seq<FormatView>, id: u32) -> bool {
    exists|i: int| 0 <= i < acc.len() && (#[trigger] acc[i]).0 == id
}

/// Some format of the list has this name.
pub open spec fn has_name(acc: Seq<FormatView>, n: Seq<char>) -> bool {
    exists|i: int| 0 <= i < acc.len() && (#[trigger] acc[i]).1 == Some(n)
}

/// A MIME type of plain text.
pub open spec fn is_text_mime(m: Seq<char>) -> bool {
    m == "text/plain"@ || m == "text/plain;charset=utf-8"@ || m == "UTF8_STRING"@ || m
        == "STRING"@
}

/// `acc` with the DIB format added unless it is there already.
pub open spec fn with_dib(acc: Seq<FormatView>) -> Seq<FormatView> {
    if has_id(acc, CF_DIB) {
        acc
    } else {
        acc.push((CF_DIB, None))
    }
}

/// The formats offered after one more MIME type, given those offered so far.
pub open spec fn mime_step(acc: Seq<FormatView>, m: Seq<char>) -> Seq<FormatView> {
    if is_text_mime(m) {
        if has_id(acc, CF_UNICODETEXT) {
            acc
        } else {
            acc.push((CF_UNICODETEXT, None))
        }
    } else if m == "text/html"@ {
        acc.push((CF_HTML, Some("HTML Format"@)))
    } else if m == "text/rtf"@ || m == "application/rtf"@ {
        acc.push((CF_RTF, Some("Rich Text Format"@)))
    } else if m == "image/png"@ {
        with_dib(acc.push((CF_PNG, Some("PNG"@))))
    } else if m == "image/jpeg"@ || m == "image/jpg"@ {
        with_dib(acc.push((CF_JPEG, Some("JFIF"@))))
    } else if m == "image/gif"@ {
        acc.push((CF_GIF, Some("GIF"@)))
    } else if m == "image/bmp"@ || m == "image/x-bmp"@ {
        acc.push((CF_DIB, None))
    } else if m == "text/uri-list"@ || m == "x-special/gnome-copied-files"@ {
        if has_name(acc, "FileGroupDescriptorW"@) {
            acc
        } else {
            acc.push((0, Some("FileGroupDescriptorW"@))).push((0, Some("FileContents"@)))
        }
    } else if m == "audio/wav"@ || m == "audio/x-wav"@ {
        acc.push((CF_WAVE, None))
    } else {
        acc
    }
}

/// The formats offered for a list of MIME types, in order of preference.
pub open spec fn mime_formats(ms: Seq<Seq<char>>) -> Seq<FormatView>
    decreases ms.len(),
{
    if ms.len() == 0 {
        seq![]
    } else {
        mime_step(mime_formats(ms.drop_last()), ms.last())
    }
}

/// The characters of each string of a list.
pub open spec fn str_views(ms: Seq<&str>) -> Seq<Seq<char>> {
    ms.map_values(|m: &str| m@)
}

fn contains_id(v: &Vec<ClipboardFormat>, id: u32) -> (r: bool)
    ensures
        r == has_id(format_views(v@), id),
{
    let mut i: usize = 0;
    while i < v.len()
        invariant
            i <= v@.len(),
            forall|j: int| 0 <= j < i ==> v@[j].id != id,
        decreases v@.len() - i,
    {
        if v[i].id == id {
            assert(format_views(v@)[i as int].0 == id);
            return true;
        }
        i = i + 1;
    }
    assert(!has_id(format_views(v@), id)) by {
        assert forall|j: int| 0 <= j < v@.len() implies (#[trigger] format_views(v@)[j]).0
            != id by {
            assert(v@[j].id != id);
        }
    }
    false
}

fn contains_name(v: &Vec<ClipboardFormat>, name: &str) -> (r: bool)
    ensures
        r == has_name(format_views(v@), name@),
{
    let mut i: usize = 0;
    while i < v.len()
        invariant
            i <= v@.len(),
            forall|j: int| 0 <= j < i ==> format_views(v@)[j].1 != Some(name@),
        decreases v@.len() - i,
    {
        let found = match &v[i].name {
            Some(n) => str_eq(n.as_str(), name),
            None => false,
        };
        if found {
            assert(format_views(v@)[i as int].1 == Some(name@));
            return true;
        }
        i = i + 1;
    }
    false
}

fn push_format(formats: &mut Vec<ClipboardFormat>, f: ClipboardFormat)
    ensures
        format_views(final(formats)@) == format_views(old(formats)@).push(f@),
{
    formats.push(f);
    assert(format_views(final(formats)@) =~= format_views(old(formats)@).push(f@));
}

fn push_dib_once(formats: &mut Vec<ClipboardFormat>)
    ensures
        format_views(final(formats)@) == with_dib(format_views(old(formats)@)),
{
    if !contains_id(formats, CF_DIB) {
        push_format(formats, ClipboardFormat::new(CF_DIB));
    }
}

/// The clipboard formats to offer for a list of MIME types.
///
/// Each MIME type adds the formats of a fixed table; unknown types add nothing.
/// Unicode text, DIB and the file-list pair are each added at most once.
pub fn mime_to_rdp_formats(mime_types: &[&str]) -> (r: Vec<ClipboardFormat>)
    ensures
        format_views(r@) == mime_formats(str_views(mime_types@)),
{
    let mut formats: Vec<ClipboardFormat> = Vec::new();
    let mut i: usize = 0;
    while i < mime_types.len()
        invariant
            i <= mime_types@.len(),
            format_views(formats@) == mime_formats(str_views(mime_types@.take(i as int))),
        decreases mime_types@.len() - i,
    {
        let mime: &str = mime_types[i];
        let ghost before = format_views(formats@);
        if str_eq(mime, "text/plain") || str_eq(mime, "text/plain;charset=utf-8") || str_eq(
            mime,
            "UTF8_STRING",
        ) || str_eq(mime, "STRING") {
            if !contains_id(&formats, CF_UNICODETEXT) {
                push_format(&mut formats, ClipboardFormat::unicode_text());
            }
        } else if str_eq(mime, "text/html") {
            push_format(&mut formats, ClipboardFormat::html());
        } else if str_eq(mime, "text/rtf") || str_eq(mime, "application/rtf") {
            push_format(&mut formats, ClipboardFormat::with_name(CF_RTF, "Rich Text Format"));
        } else if str_eq(mime, "image/png") {
            push_format(&mut formats, ClipboardFormat::png());
            push_dib_once(&mut formats);
        } else if str_eq(mime, "image/jpeg") || str_eq(mime, "image/jpg") {
            push_format(&mut formats, ClipboardFormat::with_name(CF_JPEG, "JFIF"));
            push_dib_once(&mut formats);
        } else if str_eq(mime, "image/gif") {
            push_format(&mut formats, ClipboardFormat::with_name(CF_GIF, "GIF"));
        } else if str_eq(mime, "image/bmp") || str_eq(mime, "image/x-bmp") {
            push_format(&mut formats, ClipboardFormat::new(CF_DIB));
        } else if str_eq(mime, "text/uri-list") || str_eq(mime, "x-special/gnome-copied-files") {
            if !contains_name(&formats, "FileGroupDescriptorW") {
                push_format(&mut formats, ClipboardFormat::with_name(0, "FileGroupDescriptorW"));
                push_format(&mut formats, ClipboardFormat::with_name(0, "FileContents"));
            }
        } else if str_eq(mime, "audio/wav") || str_eq(mime, "audio/x-wav") {
            push_format(&mut formats, ClipboardFormat::new(CF_WAVE));
        }
        proof {
            let ms = str_views(mime_types@.take(i + 1));
            assert(ms.drop_last() =~= str_views(mime_types@.take(i as int)));
            assert(ms.last() == mime@);
        }
        i = i + 1;
        assert(format_views(formats@) =~= mime_formats(str_views(mime_types@.take(i as int))));
    }
    assert(mime_types@.take(i as int) =~= mime_types@);
    formats
}

/// The preferred MIME type of a format id; `None` for ids with no content type.
pub open spec fn format_mime(id: u32) -> Option<Seq<char>> {
    if id == CF_UNICODETEXT || id == CF_TEXT {
        Some("text/plain;charset=utf-8"@)
    } else if id == CF_HTML {
        Some("text/html"@)
    } else if id == CF_RTF {
        Some("text/rtf"@)
    } else if id == CF_DIB || id == CF_PNG {
        Some("image/png"@)
    } else if id == CF_JPEG {
        Some("image/jpeg"@)
    } else if id == CF_GIF {
        Some("image/gif"@)
    } else if id == CF_HDROP || id == CF_FILEGROUPDESCRIPTORW {
        Some("text/uri-list"@)
    } else if id == CF_WAVE || id == CF_RIFF {
        Some("audio/wav"@)
    } else {
        None
    }
}

/// The preferred MIME type of a format id.
pub fn rdp_format_to_mime(format_id: u32) -> (r: Option<&'static str>)
    ensures
        r matches Some(s) ==> format_mime(format_id) == Some(s@),
        r is None ==> format_mime(format_id) is None,
{
    if format_id == CF_UNICODETEXT || format_id == CF_TEXT {
        Some("text/plain;charset=utf-8")
    } else if format_id == CF_HTML {
        Some("text/html")
    } else if format_id == CF_RTF {
        Some("text/rtf")
    } else if format_id == CF_DIB || format_id == CF_PNG {
        Some("image/png")
    } else if format_id == CF_JPEG {
        Some("image/jpeg")
    } else if format_id == CF_GIF {
        Some("image/gif")
    } else if format_id == CF_HDROP || format_id == CF_FILEGROUPDESCRIPTORW {
        Some("text/uri-list")
    } else if format_id == CF_WAVE || format_id == CF_RIFF {
        Some("audio/wav")
    } else {
        None
    }
}

} // verus!
