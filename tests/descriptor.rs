use lamco_clipboard_core::descriptor::build_file_group_descriptor_w;
use lamco_clipboard_core::{ClipboardError, FileDescriptor, FileDescriptorFlags, FileEntry};

#[test]
fn parse_rejects_591_bytes() {
    assert!(matches!(FileDescriptor::parse(&[0u8; 591]), Err(ClipboardError::FormatConversion(_))));
}

#[test]
fn parse_zeroed_record() {
    let d = FileDescriptor::parse(&[0u8; 592]).unwrap();
    assert_eq!(d.creation_time, None);
    assert_eq!(d.access_time, None);
    assert_eq!(d.write_time, None);
    assert_eq!(d.size, None);
    assert_eq!(d.name, "");
    assert_eq!(d.attributes, 0);
}

#[test]
fn parse_flagged_fields() {
    let mut rec = vec![0u8; 592];
    let flags = FileDescriptorFlags::FILESIZE | FileDescriptorFlags::WRITESTIME | FileDescriptorFlags::CREATETIME;
    rec[0..4].copy_from_slice(&flags.to_le_bytes());
    rec[36..40].copy_from_slice(&0x80u32.to_le_bytes());
    rec[40..48].copy_from_slice(&7u64.to_le_bytes());
    rec[48..56].copy_from_slice(&8u64.to_le_bytes());
    rec[56..64].copy_from_slice(&9u64.to_le_bytes());
    rec[64..68].copy_from_slice(&1u32.to_le_bytes());
    rec[68..72].copy_from_slice(&2u32.to_le_bytes());
    for (i, c) in "a.txt".encode_utf16().enumerate() {
        rec[72 + 2 * i..74 + 2 * i].copy_from_slice(&c.to_le_bytes());
    }
    let d = FileDescriptor::parse(&rec).unwrap();
    assert!(d.flags.has_flag(FileDescriptorFlags::FILESIZE));
    assert_eq!(d.attributes, 0x80);
    assert_eq!(d.creation_time, Some(7));
    assert_eq!(d.access_time, None);
    assert_eq!(d.write_time, Some(9));
    assert_eq!(d.size, Some((1u64 << 32) | 2));
    assert_eq!(d.name, "a.txt");
}

#[test]
fn parse_bad_name() {
    let mut rec = vec![0u8; 592];
    rec[72..74].copy_from_slice(&0xDC00u16.to_le_bytes());
    assert_eq!(FileDescriptor::parse(&rec).unwrap_err(), ClipboardError::InvalidUtf16);
}

#[test]
fn build_and_parse_list() {
    let entries = vec![
        FileEntry { name: "report.pdf".to_string(), is_dir: false, size: 0x1_0000_0005 },
        FileEntry { name: "a<b>:c".to_string(), is_dir: true, size: 0 },
    ];
    let data = build_file_group_descriptor_w(&entries);
    assert_eq!(data.len(), 4 + 2 * 592);
    assert_eq!(&data[0..4], &2u32.to_le_bytes());
    let list = FileDescriptor::parse_list(&data).unwrap();
    assert_eq!(list.len(), 2);
    assert_eq!(list[0].name, "report.pdf");
    assert_eq!(list[0].size, Some(0x1_0000_0005));
    assert_eq!(list[0].attributes, 0x80);
    assert_eq!(list[0].creation_time, None);
    assert_eq!(list[1].name, "a_b__c");
    assert_eq!(list[1].attributes, 0x10);
    assert_eq!(list[1].size, Some(0));
}

#[test]
fn build_truncates_long_names() {
    let name: String = std::iter::repeat('x').take(300).collect();
    let rec = FileDescriptor::build(&FileEntry { name, is_dir: false, size: 1 });
    assert_eq!(rec.len(), 592);
    let d = FileDescriptor::parse(&rec).unwrap();
    assert_eq!(d.name.len(), 259);
}

#[test]
fn parse_list_errors() {
    assert!(matches!(FileDescriptor::parse_list(&[1, 0, 0]), Err(ClipboardError::FormatConversion(_))));
    let mut short = vec![0u8; 4 + 591];
    short[0] = 1;
    assert!(matches!(FileDescriptor::parse_list(&short), Err(ClipboardError::FormatConversion(_))));
    assert!(FileDescriptor::parse_list(&[0, 0, 0, 0]).unwrap().is_empty());
}
