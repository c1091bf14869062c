use lamco_clipboard_core::hdrop::{percent_decode, percent_encode};
use lamco_clipboard_core::{ClipboardError, FormatConverter};

#[test]
fn test_text_to_unicode() {
    let converter = FormatConverter::new();
    let result = converter.text_to_unicode("Hello").unwrap();
    assert_eq!(result, vec![b'H', 0, b'e', 0, b'l', 0, b'l', 0, b'o', 0, 0, 0]);
}

#[test]
fn test_unicode_to_text() {
    let converter = FormatConverter::new();
    let data = vec![b'H', 0, b'i', 0, 0, 0];
    let result = converter.unicode_to_text(&data).unwrap();
    assert_eq!(result, "Hi");
}

#[test]
fn test_html_roundtrip() {
    let converter = FormatConverter::new();
    let html = "<b>Hello</b>";
    let cf_html = converter.html_to_cf_html(html).unwrap();
    let recovered = converter.cf_html_to_html(&cf_html).unwrap();
    assert_eq!(recovered, html);
}

#[test]
fn test_uri_list_to_hdrop() {
    let converter = FormatConverter::new();
    let hdrop = converter.uri_list_to_hdrop("file:///home/user/test.txt").unwrap();
    assert_eq!(hdrop[0..4], 20u32.to_le_bytes());
    assert_eq!(hdrop[16..20], 1u32.to_le_bytes());
}

#[test]
fn test_hdrop_roundtrip() {
    let converter = FormatConverter::new();
    let original = "file:///home/user/test.txt";
    let hdrop = converter.uri_list_to_hdrop(original).unwrap();
    let recovered = converter.hdrop_to_uri_list(&hdrop).unwrap();
    assert_eq!(recovered, original);
}

#[test]
fn text_wire_round_trip_with_surrogates() {
    let converter = FormatConverter::new();
    let text = "a\u{e9}\u{1F600}z";
    let wire = converter.text_to_unicode(text).unwrap();
    assert_eq!(wire, vec![b'a', 0, 0xE9, 0, 0x3D, 0xD8, 0x00, 0xDE, b'z', 0, 0, 0]);
    assert_eq!(converter.unicode_to_text(&wire).unwrap(), text);
    assert_eq!(converter.text_to_unicode(&converter.unicode_to_text(&wire).unwrap()).unwrap(), wire);
}

#[test]
fn text_size_limit() {
    let converter = FormatConverter::with_max_size(4);
    assert_eq!(
        converter.text_to_unicode("Hello"),
        Err(ClipboardError::DataSizeExceeded { actual: 5, max: 4 })
    );
    assert_eq!(converter.text_to_unicode("Hell").unwrap().len(), 10);
    assert_eq!(
        converter.unicode_to_text(&[b'H', 0, b'i', 0, 0, 0]),
        Err(ClipboardError::DataSizeExceeded { actual: 6, max: 4 })
    );
}

#[test]
fn unicode_errors() {
    let converter = FormatConverter::new();
    assert_eq!(converter.unicode_to_text(&[b'H', 0, b'i']), Err(ClipboardError::InvalidUtf16));
    assert_eq!(converter.unicode_to_text(&[0x00, 0xD8, b'a', 0]), Err(ClipboardError::InvalidUtf16));
    assert_eq!(converter.unicode_to_text(&[b'O', 0, b'K', 0]).unwrap(), "OK");
    assert_eq!(converter.unicode_to_text(&[]).unwrap(), "");
    assert_eq!(converter.unicode_to_text(&[0, 0, 0, 0]).unwrap(), "\0");
}

#[test]
fn cf_html_exact_layout() {
    let converter = FormatConverter::new();
    let out = converter.html_to_cf_html("<i>x</i>").unwrap();
    let expected = "Version:0.9\r\nStartHTML:00000097\r\nEndHTML:00000169\r\nStartFragment:00000129\r\nEndFragment:00000137\r\n<html><body><!--StartFragment--><i>x</i><!--EndFragment--></body></html>";
    assert_eq!(String::from_utf8(out.clone()).unwrap(), expected);
    assert_eq!(&out[129..137], b"<i>x</i>");
    assert_eq!(out.len(), 169);
}

#[test]
fn cf_html_errors() {
    let converter = FormatConverter::new();
    assert_eq!(converter.cf_html_to_html(&[0xFF, 0xFE]), Err(ClipboardError::InvalidUtf8));
    assert!(matches!(
        converter.cf_html_to_html(b"Version:0.9\r\nEndFragment:10\r\n"),
        Err(ClipboardError::FormatConversion(_))
    ));
    assert!(matches!(
        converter.cf_html_to_html(b"StartFragment:5\r\nEndFragment:5\r\n"),
        Err(ClipboardError::FormatConversion(_))
    ));
    assert!(matches!(
        converter.cf_html_to_html(b"StartFragment:5\r\nEndFragment:500\r\n"),
        Err(ClipboardError::FormatConversion(_))
    ));
    assert_eq!(converter.cf_html_to_html(b"StartFragment: +2 \nEndFragment:5\nabc").unwrap(), "art");
    assert!(matches!(
        FormatConverter::with_max_size(3).html_to_cf_html("abcd"),
        Err(ClipboardError::DataSizeExceeded { actual: 4, max: 3 })
    ));
}

#[test]
fn hdrop_exact_layout_and_multi_paths() {
    let converter = FormatConverter::new();
    let hdrop = converter.uri_list_to_hdrop("# comment\r\nfile:///a%20b\r\nhttp://x\r\nfile:///c").unwrap();
    let mut expected = vec![20, 0, 0, 0, 0, 0, 0, 0, 0, 0, 0, 0, 0, 0, 0, 0, 1, 0, 0, 0];
    for c in "/a b".encode_utf16() {
        expected.extend_from_slice(&c.to_le_bytes());
    }
    expected.extend_from_slice(&[0, 0]);
    for c in "/c".encode_utf16() {
        expected.extend_from_slice(&c.to_le_bytes());
    }
    expected.extend_from_slice(&[0, 0, 0, 0]);
    assert_eq!(hdrop, expected);
    assert_eq!(converter.hdrop_to_uri_list(&hdrop).unwrap(), "file:///a%20b\r\nfile:///c");
}

#[test]
fn hdrop_errors() {
    let converter = FormatConverter::new();
    assert!(matches!(converter.uri_list_to_hdrop("# only\nhttp://x"), Err(ClipboardError::FormatConversion(_))));
    assert!(matches!(converter.hdrop_to_uri_list(&[0; 19]), Err(ClipboardError::FormatConversion(_))));
    let mut bad = vec![0u8; 24];
    bad[0] = 24;
    assert!(matches!(converter.hdrop_to_uri_list(&bad), Err(ClipboardError::FormatConversion(_))));
}

#[test]
fn hdrop_narrow_paths() {
    let converter = FormatConverter::new();
    let mut data = vec![20, 0, 0, 0, 0, 0, 0, 0, 0, 0, 0, 0, 0, 0, 0, 0, 0, 0, 0, 0];
    data.extend_from_slice(b"/tmp/a b\0/x?y\0\0");
    assert_eq!(converter.hdrop_to_uri_list(&data).unwrap(), "file:///tmp/a%20b\r\nfile:///x%3Fy");
}

#[test]
fn percent_codec() {
    let dec: String = percent_decode(&"a%41%zz%4".chars().collect::<Vec<_>>()).into_iter().collect();
    assert_eq!(dec, "aA%zz\u{4}");
    let enc: String = percent_encode(&"a b#%?".chars().collect::<Vec<_>>()).into_iter().collect();
    assert_eq!(enc, "a%20b%23%25%3F");
}

#[test]
fn hdrop_round_trip_several_paths() {
    let converter = FormatConverter::new();
    let original = "file:///home/user/a.txt\r\nfile:///tmp/\u{e9}t\u{e9}/b\r\nfile:///c";
    let hdrop = converter.uri_list_to_hdrop(original).unwrap();
    assert_eq!(converter.hdrop_to_uri_list(&hdrop).unwrap(), original);
}

#[test]
fn html_round_trip_ascii() {
    let converter = FormatConverter::new();
    for html in ["plain", "<p>StartFragment:3 & EndFragment:1</p>", "\tx y\t"] {
        let cf = converter.html_to_cf_html(html).unwrap();
        assert_eq!(converter.cf_html_to_html(&cf).unwrap(), html);
    }
    let empty = converter.html_to_cf_html("").unwrap();
    assert!(matches!(converter.cf_html_to_html(&empty), Err(ClipboardError::FormatConversion(_))));
}

#[test]
fn last_line_keeps_carriage_return() {
    let converter = FormatConverter::new();
    let hdrop = converter.uri_list_to_hdrop("file:///a\r").unwrap();
    assert_eq!(&hdrop[20..], &[b'/', 0, b'a', 0, b'\r', 0, 0, 0, 0, 0]);
    let hdrop2 = converter.uri_list_to_hdrop("file:///a\r\n").unwrap();
    assert_eq!(&hdrop2[20..], &[b'/', 0, b'a', 0, 0, 0, 0, 0]);
}
