use lamco_clipboard_core::{ClipboardFormat, ClipboardSource, LoopDetectionConfig, LoopDetector};

#[test]
fn test_no_loop_different_formats() {
    let mut detector = LoopDetector::new();
    let formats1 = vec![ClipboardFormat::unicode_text()];
    let formats2 = vec![ClipboardFormat::html()];
    detector.record_formats(&formats1, ClipboardSource::Rdp);
    assert!(!detector.would_cause_loop(&formats2));
}

#[test]
fn test_loop_same_formats() {
    let mut detector = LoopDetector::new();
    let formats = vec![ClipboardFormat::unicode_text()];
    detector.record_formats(&formats, ClipboardSource::Rdp);
    assert!(detector.would_cause_loop(&formats));
}

#[test]
fn test_no_loop_same_source() {
    let mut detector = LoopDetector::new();
    let formats = vec![ClipboardFormat::unicode_text()];
    detector.record_formats(&formats, ClipboardSource::Local);
    assert!(!detector.would_cause_loop(&formats));
}

#[test]
fn test_content_hash() {
    let mut detector = LoopDetector::new();
    let data = b"Hello, World!";
    detector.record_content(data, ClipboardSource::Rdp);
    assert!(detector.would_cause_content_loop(data, ClipboardSource::Local));
    assert!(!detector.would_cause_content_loop(b"Different", ClipboardSource::Local));
}

#[test]
fn test_clear_history() {
    let mut detector = LoopDetector::new();
    let formats = vec![ClipboardFormat::unicode_text()];
    detector.record_formats(&formats, ClipboardSource::Rdp);
    detector.clear();
    assert!(!detector.would_cause_loop(&formats));
}

#[test]
fn test_compute_hash() {
    let hash1 = LoopDetector::compute_hash(b"test");
    let hash2 = LoopDetector::compute_hash(b"test");
    let hash3 = LoopDetector::compute_hash(b"different");
    assert_eq!(hash1, hash2);
    assert_ne!(hash1, hash3);
}

#[test]
fn compute_hash_is_sha256_hex() {
    assert_eq!(
        LoopDetector::compute_hash(b"abc"),
        "ba7816bf8f01cfea414140de5dae2223b00361a396177a9cb410ff61f20015ad"
    );
}

#[test]
fn echo_expires_after_window() {
    let mut detector = LoopDetector::new();
    let formats = vec![ClipboardFormat::unicode_text()];
    detector.record_formats_at(&formats, ClipboardSource::Rdp, 1000);
    assert!(detector.would_cause_loop_at(&formats, 1000));
    assert!(detector.would_cause_loop_at(&formats, 1500));
    assert!(!detector.would_cause_loop_at(&formats, 1501));
    detector.clear();
    assert!(!detector.would_cause_loop_at(&formats, 1000));
}

#[test]
fn mime_echo_is_checked_against_local() {
    let mut detector = LoopDetector::new();
    let mimes = vec!["text/plain".to_string(), "text/html".to_string()];
    detector.record_mime_types_at(&mimes, ClipboardSource::Local, 10);
    assert!(detector.would_cause_loop_mime_at(&mimes, 20));
    assert!(!detector.would_cause_loop_at(&[ClipboardFormat::unicode_text()], 20));
    let other = vec!["text/html".to_string(), "text/plain".to_string()];
    assert!(!detector.would_cause_loop_mime_at(&other, 20));
}

#[test]
fn history_is_bounded() {
    let config = LoopDetectionConfig { window_ms: 500, max_history: 2, enable_content_hashing: true };
    let mut detector = LoopDetector::with_config(config);
    detector.record_content_at(b"one", ClipboardSource::Rdp, 0);
    detector.record_content_at(b"two", ClipboardSource::Rdp, 1);
    detector.record_content_at(b"three", ClipboardSource::Rdp, 2);
    assert!(!detector.would_cause_content_loop_at(b"one", ClipboardSource::Local, 3));
    assert!(detector.would_cause_content_loop_at(b"two", ClipboardSource::Local, 3));
    assert!(!detector.would_cause_content_loop_at(b"two", ClipboardSource::Rdp, 3));
}

#[test]
fn content_hashing_off() {
    let config = LoopDetectionConfig { window_ms: 500, max_history: 10, enable_content_hashing: false };
    let mut detector = LoopDetector::with_config(config);
    detector.record_content(b"x", ClipboardSource::Rdp);
    assert!(!detector.would_cause_content_loop(b"x", ClipboardSource::Local));
}

#[test]
fn old_entries_evicted_on_record() {
    let mut detector = LoopDetector::new();
    let a = vec![ClipboardFormat::unicode_text()];
    let b = vec![ClipboardFormat::html()];
    detector.record_formats_at(&a, ClipboardSource::Rdp, 0);
    detector.record_formats_at(&b, ClipboardSource::Rdp, 1001);
    assert!(!detector.would_cause_loop_at(&a, 1001));
    assert!(detector.would_cause_loop_at(&b, 1001));
    assert_eq!(ClipboardSource::Rdp.opposite(), ClipboardSource::Local);
}

#[test]
fn hash_level_records_and_checks() {
    let mut detector = LoopDetector::new();
    detector.record_format_hash_at("abc".to_string(), ClipboardSource::Local, 100);
    assert!(detector.format_hash_echo_at(&"abc".to_string(), ClipboardSource::Rdp, 600));
    assert!(!detector.format_hash_echo_at(&"abc".to_string(), ClipboardSource::Rdp, 601));
    assert!(!detector.format_hash_echo_at(&"abc".to_string(), ClipboardSource::Local, 100));
    assert!(!detector.format_hash_echo_at(&"abd".to_string(), ClipboardSource::Rdp, 100));
    detector.record_content_hash_at("h".to_string(), ClipboardSource::Rdp, 5);
    assert!(detector.content_hash_echo_at(&"h".to_string(), ClipboardSource::Local, 5));
    assert!(!detector.format_hash_echo_at(&"h".to_string(), ClipboardSource::Local, 5));
}

#[test]
fn content_hash_matches_compute_hash() {
    let mut detector = LoopDetector::new();
    detector.record_content_at(b"payload", ClipboardSource::Rdp, 0);
    let h = LoopDetector::compute_hash(b"payload");
    assert!(detector.content_hash_echo_at(&h, ClipboardSource::Local, 0));
}
