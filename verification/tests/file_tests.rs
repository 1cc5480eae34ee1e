use mirthbr::file_dest::FileWriter;
use mirthbr::message::Message;

#[test]
fn test_sanitize_filename() {
    assert_eq!(FileWriter::sanitize_filename("normal.txt"), "normal.txt");
    // only separators and controls go; dots are preserved
    assert_eq!(FileWriter::sanitize_filename("../../../etc/passwd"), "......etcpasswd");
    assert_eq!(FileWriter::sanitize_filename("..\\..\\windows\\system32"), "....windowssystem32");
    assert_eq!(FileWriter::sanitize_filename("file\0name.txt"), "filename.txt");
}

#[test]
fn test_validate_path_blocks_traversal() {
    let result = FileWriter::validate_path("/tmp/output", "somefile.txt");
    assert!(result.is_ok());
    let path = result.unwrap();
    assert!(path.contains("somefile.txt"));
}

#[test]
fn test_validate_path_normalizes() {
    let path = FileWriter::validate_path("/tmp/./output/../output", "a.txt").unwrap();
    assert_eq!(path, "/tmp/output/output/a.txt");
}

#[test]
fn test_validate_path_filters_dot_components_of_filename() {
    // "." and ".." filenames are dropped as components, leaving the base
    assert_eq!(FileWriter::validate_path("/tmp/out", ".").unwrap(), "/tmp/out");
    assert_eq!(FileWriter::validate_path("/tmp/out", "..").unwrap(), "/tmp/out");
}

#[test]
fn test_validate_path_rejects_dotdot_residue() {
    // the sanitized filename still holds a ".." run, so the path is refused
    assert!(FileWriter::validate_path("/tmp", "..secret").is_err());
}

#[test]
fn test_validate_path_rejects_overlong() {
    let long = "a".repeat(5000);
    assert!(FileWriter::validate_path("/tmp", &long).is_err());
}

#[test]
fn test_sanitize_caps_length() {
    let long = "x".repeat(400);
    assert_eq!(FileWriter::sanitize_filename(&long).len(), 255);
}

#[test]
fn test_build_filename_default_and_tokens() {
    let msg = Message {
        id: 7,
        channel_id: 1,
        content: "body".to_string(),
        origin: None,
        timestamp_ms: 0,
    };

    let plain = FileWriter::new(
        "./out".to_string(),
        None,
        None,
        None,
        "chan".to_string(),
    );
    let name = plain.build_filename(&msg);
    assert!(name.starts_with("message_"));
    assert!(name.ends_with(".txt"));

    let patterned = FileWriter::new(
        "./out".to_string(),
        Some("m_${id}_${channel}.txt".to_string()),
        None,
        None,
        "chan".to_string(),
    );
    let name2 = patterned.build_filename(&msg);
    assert!(name2.starts_with("m_"));
    assert!(name2.ends_with("_chan.txt"));
    assert!(name2.contains("00000000-0000-0000-0000-000000000007"));

    // a pattern with separators cannot smuggle them into the filename
    let hostile = FileWriter::new(
        "./out".to_string(),
        Some("../evil/${id}\u{0}.txt".to_string()),
        None,
        None,
        "chan".to_string(),
    );
    let name3 = hostile.build_filename(&msg);
    assert!(!name3.contains('/'));
    assert!(!name3.contains('\u{0}'));
    assert!(name3.starts_with("..evil"));
}

#[test]
fn test_prepare_payload_base64() {
    let w = FileWriter::new(
        "./out".to_string(),
        None,
        None,
        Some("base64".to_string()),
        "chan".to_string(),
    );
    let (bytes, newline) = w.prepare_payload("aGVsbG8=").unwrap();
    assert_eq!(bytes, b"hello");
    assert!(!newline);
    assert!(w.prepare_payload("not base64 ***").is_err());
}

#[test]
fn test_prepare_payload_text() {
    let w = FileWriter::new("./out".to_string(), None, None, None, "chan".to_string());
    let (bytes, newline) = w.prepare_payload("plain").unwrap();
    assert_eq!(bytes, b"plain");
    assert!(newline);
}
