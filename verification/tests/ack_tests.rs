use mirthbr::ack::{build_ack, generate_ack};

#[test]
fn test_ack_generation() {
    let input_hl7 = "MSH|^~\\&|HIS|Hospital|Mirth|System|20231010120000||ADT^A01|MSG12345|P|2.3\rPID|...";
    let ack = generate_ack(input_hl7);

    assert!(ack.starts_with("\x0BMSH"));
    assert!(ack.contains("|Mirth|System|HIS|Hospital|")); // swapped
    assert!(ack.contains("|ACK|"));
    assert!(ack.contains("MSA|AA|MSG12345"));
    assert!(ack.ends_with("\x1C\x0D"));
}

#[test]
fn test_ack_exact_bytes() {
    let msg = b"MSH|^~\\&|HIS|Hosp|Mirth|Sys|20231010||ADT|CTRL9|P|2.3";
    let ack = build_ack(msg, b"20240101000000", b"NEWID");
    let expected = b"\x0BMSH|^~\\&|Mirth|Sys|HIS|Hosp|20240101000000||ACK|NEWID|P|2.3\rMSA|AA|CTRL9\x1C\x0D";
    assert_eq!(ack, expected);
}

#[test]
fn test_ack_fallback_on_short_msh() {
    let ack = build_ack(b"PID|only", b"20240101000000", b"NEWID");
    let expected = b"\x0BMSA|AA|Unknown|20240101000000\x1C\x0D";
    assert_eq!(ack, expected);
}

#[test]
fn test_ack_fallback_on_empty_message() {
    let ack = build_ack(b"", b"20240101000000", b"X");
    assert_eq!(ack, b"\x0BMSA|AA|Unknown|20240101000000\x1C\x0D");
}
