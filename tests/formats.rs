use lamco_clipboard_core::formats::{
    mime_to_rdp_formats, rdp_format_to_mime, ClipboardFormat, CF_DIB, CF_FILEGROUPDESCRIPTORW, CF_HTML,
    CF_PNG, CF_UNICODETEXT,
};

#[test]
fn test_mime_to_formats() {
    let formats = mime_to_rdp_formats(&["text/plain", "text/html"]);
    assert!(formats.iter().any(|f| f.id == CF_UNICODETEXT));
    assert!(formats.iter().any(|f| f.id == CF_HTML));
}

#[test]
fn test_format_to_mime() {
    assert_eq!(rdp_format_to_mime(CF_UNICODETEXT), Some("text/plain;charset=utf-8"));
    assert_eq!(rdp_format_to_mime(CF_HTML), Some("text/html"));
    assert_eq!(rdp_format_to_mime(CF_PNG), Some("image/png"));
    assert_eq!(rdp_format_to_mime(CF_FILEGROUPDESCRIPTORW), Some("text/uri-list"));
    assert_eq!(rdp_format_to_mime(49430), Some("text/uri-list"));
    assert_eq!(rdp_format_to_mime(0xFFFF), None);
}

#[test]
fn test_clipboard_format_builders() {
    let text = ClipboardFormat::unicode_text();
    assert_eq!(text.id, CF_UNICODETEXT);
    assert!(text.name.is_none());

    let html = ClipboardFormat::html();
    assert_eq!(html.id, CF_HTML);
    assert_eq!(html.name, Some("HTML Format".to_string()));
}

#[test]
fn text_and_html_appear_once_each() {
    let formats = mime_to_rdp_formats(&["text/plain", "text/html"]);
    assert_eq!(formats.iter().filter(|f| f.id == CF_UNICODETEXT).count(), 1);
    assert_eq!(formats.iter().filter(|f| f.id == CF_HTML).count(), 1);
    assert_eq!(formats.len(), 2);
}

#[test]
fn text_variants_give_one_unicode_entry() {
    let formats = mime_to_rdp_formats(&["text/plain", "UTF8_STRING", "STRING", "text/plain;charset=utf-8"]);
    assert_eq!(formats, vec![ClipboardFormat::unicode_text()]);
}

#[test]
fn png_and_jpeg_share_one_dib_fallback() {
    let formats = mime_to_rdp_formats(&["image/png", "image/jpeg"]);
    assert_eq!(
        formats,
        vec![
            ClipboardFormat::png(),
            ClipboardFormat::new(CF_DIB),
            ClipboardFormat::with_name(0xD012, "JFIF"),
        ]
    );
}

#[test]
fn uri_list_gives_file_pair_once() {
    let formats = mime_to_rdp_formats(&["text/uri-list", "x-special/gnome-copied-files"]);
    assert_eq!(
        formats,
        vec![
            ClipboardFormat::with_name(0, "FileGroupDescriptorW"),
            ClipboardFormat::with_name(0, "FileContents"),
        ]
    );
}

#[test]
fn unknown_mime_is_skipped() {
    assert!(mime_to_rdp_formats(&["application/x-unknown"]).is_empty());
    assert!(mime_to_rdp_formats(&[]).is_empty());
}

#[test]
fn file_contents_has_no_mime() {
    assert_eq!(rdp_format_to_mime(49338), None);
    assert_eq!(rdp_format_to_mime(CF_DIB), Some("image/png"));
    assert_eq!(rdp_format_to_mime(11), Some("audio/wav"));
    assert_eq!(rdp_format_to_mime(1), Some("text/plain;charset=utf-8"));
}
