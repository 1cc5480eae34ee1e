use mirthbr::db_dest::DatabaseWriter;
use mirthbr::hl7::hl7_flatten;
use mirthbr::listeners::{cors_mode, ingress_reply, row_to_payload, should_process_file, CorsMode, IngressWait};
use mirthbr::logs::{sanitize_log_message, LogEntry, LogRateLimiter, LogRing};
use mirthbr::models::{default_hello_channel, default_max_retries, HELLO_WORLD_CHANNEL_ID};
use mirthbr::script::{wrap_script, LuaProcessor};
use mirthbr::status::MessageStatus;
use mirthbr::tcp_dest::{classify_ack, unwrap_reply, AckVerdict, TcpSender};
use mirthbr::validate::{api_key_policy, TestMessageRequest};

#[test]
fn test_app_error_mapping() {
    let db = mirthbr::error::AppError::DbError("boom".to_string());
    assert_eq!(db.status_code(), 500);
    assert_eq!(db.message(), "boom");
    let nf = mirthbr::error::AppError::NotFound;
    assert_eq!(nf.status_code(), 404);
    assert_eq!(nf.message(), "Resource not found");
}

#[test]
fn test_list_messages_query_limit() {
    let q = mirthbr::validate::ListMessagesQuery { channel_id: None, status: None, limit: None };
    assert_eq!(q.effective_limit(), 100);
    let q2 = mirthbr::validate::ListMessagesQuery {
        channel_id: Some("c".to_string()),
        status: Some("SENT".to_string()),
        limit: Some(5),
    };
    assert_eq!(q2.effective_limit(), 5);
}

#[test]
fn test_status_round_trip() {
    for st in [
        MessageStatus::PENDING,
        MessageStatus::PROCESSING,
        MessageStatus::SENT,
        MessageStatus::FILTERED,
        MessageStatus::ERROR,
    ] {
        let text = st.to_string();
        assert_eq!(MessageStatus::from(text), st);
    }
    assert_eq!(MessageStatus::from("anything else".to_string()), MessageStatus::ERROR);
    assert_eq!(MessageStatus::PENDING.to_string(), "PENDING");
}

#[test]
fn test_code_size_limit() {
    let code = "a".repeat(64 * 1024 + 1);
    let processor = LuaProcessor::new(code);
    assert!(processor.validate_code().is_err());
    let small = LuaProcessor::new("return msg.content".to_string());
    assert!(small.validate_code().is_ok());
}

#[test]
fn test_deny_list_screening() {
    for bad in [
        "loadstring('x')",
        "loadfile('/etc/passwd')",
        "dofile('x')",
        "load('x')",
        "_G['os']",
        "debug.getinfo(1)",
        "io.open('/tmp/x')",
        "os.execute('rm')",
        "os.remove('f')",
        "os.rename('a','b')",
        "os.exit()",
    ] {
        assert!(LuaProcessor::new(bad.to_string()).validate_code().is_err(), "{bad}");
    }
    assert!(LuaProcessor::new("return os.date('%Y')".to_string()).validate_code().is_ok());
}

#[test]
fn test_wrap_script_shape() {
    let wrapped = wrap_script("return 1");
    assert_eq!(wrapped, "local function run(msg)\nreturn 1\nend\nreturn run(msg)");
}

#[test]
fn test_classify_ack_codes() {
    assert_eq!(classify_ack(b"MSH|...\rMSA|AA|1"), AckVerdict::Positive);
    assert_eq!(classify_ack(b"MSH|...\rMSA|CA|1"), AckVerdict::Positive);
    assert_eq!(classify_ack(b"MSH|...\rMSA|AE|1"), AckVerdict::Negative);
    assert_eq!(classify_ack(b"MSH|...\rMSA|AR|1"), AckVerdict::Negative);
    // a bare MSA segment without a readable code still counts as accepted
    assert_eq!(classify_ack(b"noise MSA| noise"), AckVerdict::Positive);
    assert_eq!(classify_ack(b"HTTP/1.1 200 OK"), AckVerdict::Invalid);
}

#[test]
fn test_unwrap_reply_trims_framing() {
    let raw = b"\x0BMSA|AA|1\x1C\x0D";
    assert_eq!(unwrap_reply(raw), b"MSA|AA|1");
    let sender = TcpSender::new("h".to_string(), 6661, "c".to_string());
    assert_eq!(sender.port, 6661);
}

#[test]
fn test_build_sql_decisions() {
    let custom = DatabaseWriter::new(
        "postgres://db".to_string(),
        Some("t".to_string()),
        "INSERT".to_string(),
        Some("SELECT 1".to_string()),
        "c".to_string(),
    );
    assert_eq!(custom.build_sql().unwrap(), "SELECT 1");

    let insert = DatabaseWriter::new(
        "postgres://db".to_string(),
        Some("events".to_string()),
        "insert".to_string(),
        None,
        "c".to_string(),
    );
    // the mode is upper-cased on construction
    assert_eq!(insert.mode, "INSERT");
    assert_eq!(
        insert.build_sql().unwrap(),
        "INSERT INTO events (content, origin, created_at) VALUES ($1, $2, NOW())"
    );

    let update = DatabaseWriter::new(
        "postgres://db".to_string(),
        Some("events".to_string()),
        "UPDATE".to_string(),
        None,
        "c".to_string(),
    );
    assert!(update.build_sql().is_err());

    let bare = DatabaseWriter::new(
        "postgres://db".to_string(),
        None,
        "INSERT".to_string(),
        None,
        "c".to_string(),
    );
    assert!(bare.build_sql().is_err());
}

#[test]
fn test_hl7_flatten_shapes() {
    let json = hl7_flatten("MSH|^~\\&|APP\rPID|1|12345");
    let v: serde_json::Value = serde_json::from_str(&json).unwrap();
    assert_eq!(v["MSH"][0], "MSH");
    assert_eq!(v["MSH"][2], "APP");
    assert_eq!(v["PID"][2], "12345");
    // line feeds serve where no carriage return occurs
    let json2 = hl7_flatten("MSH|a\nPID|b");
    let v2: serde_json::Value = serde_json::from_str(&json2).unwrap();
    assert_eq!(v2["PID"][1], "b");
    // a repeated segment name overwrites the earlier one
    let json3 = hl7_flatten("OBX|1\rOBX|2");
    let v3: serde_json::Value = serde_json::from_str(&json3).unwrap();
    assert_eq!(v3["OBX"][1], "2");
}

#[test]
fn test_validate_payload_rules() {
    let ok = TestMessageRequest { payload_type: "HL7".to_string(), payload: "MSH|1".to_string() };
    assert!(ok.validate().is_ok());
    let bad_type =
        TestMessageRequest { payload_type: "exe".to_string(), payload: "x".to_string() };
    assert!(bad_type.validate().is_err());
    let blank = TestMessageRequest { payload_type: "text".to_string(), payload: "   ".to_string() };
    assert!(blank.validate().is_err());
    // Unicode whitespace counts as blank too, as trimming would find
    let nbsp = TestMessageRequest {
        payload_type: "text".to_string(),
        payload: "\u{00A0}\u{2003}".to_string(),
    };
    assert!(nbsp.validate().is_err());
    let big = TestMessageRequest {
        payload_type: "raw".to_string(),
        payload: "x".repeat(1024 * 1024 + 1),
    };
    assert!(big.validate().is_err());
}

#[test]
fn test_api_key_policy() {
    assert_eq!(api_key_policy(Some("k".repeat(40)), true).unwrap(), "k".repeat(40));
    assert!(api_key_policy(None, true).is_err());
    assert_eq!(
        api_key_policy(None, false).unwrap(),
        "dev-key-change-in-production-32chars"
    );
    assert!(api_key_policy(Some(String::new()), true).is_err());
}

#[test]
fn test_log_ring_evicts_oldest() {
    let mut ring = LogRing::new();
    for i in 0..105i64 {
        ring.push(LogEntry {
            timestamp_ms: i,
            level: "INFO".to_string(),
            message: format!("m{i}"),
            channel_id: None,
        });
    }
    let all = ring.snapshot();
    assert_eq!(all.len(), 100);
    assert_eq!(all[0].message, "m5");
    assert_eq!(all[99].message, "m104");
}

#[test]
fn test_log_rate_limit_suppresses_repeats() {
    let mut rl = LogRateLimiter::new();
    assert!(rl.allow(Some(1), "hello", 1000));
    assert!(!rl.allow(Some(1), "hello", 1500));
    assert!(rl.allow(Some(1), "other", 1600));
    assert!(rl.allow(Some(2), "hello", 1700));
    assert!(rl.allow(None, "sys", 0));
    assert!(!rl.allow(None, "sys", 999));
    assert!(rl.allow(None, "sys", 5000));
}

#[test]
fn test_sanitize_log_message_strips_controls() {
    assert_eq!(sanitize_log_message("a\nb\rc\x00d"), "abcd");
    assert_eq!(sanitize_log_message("tab\tkept"), "tab\tkept");
    assert_eq!(sanitize_log_message(&"x".repeat(3000)).len(), 2048);
}

#[test]
fn test_ingress_reply_mapping() {
    assert_eq!(ingress_reply(IngressWait::Succeeded), (200, "Message Processed Successfully".to_string()));
    assert_eq!(ingress_reply(IngressWait::Failed("bad".to_string())), (400, "bad".to_string()));
    assert_eq!(ingress_reply(IngressWait::ChannelClosed).0, 500);
    assert_eq!(ingress_reply(IngressWait::TimedOut).0, 504);
}

#[test]
fn test_cors_mode_decision() {
    assert_eq!(cors_mode(true, &None), CorsMode::Permissive);
    assert_eq!(cors_mode(false, &None), CorsMode::Restrictive);
    assert_eq!(cors_mode(false, &Some(vec![])), CorsMode::Restrictive);
    assert_eq!(cors_mode(false, &Some(vec!["https://a".to_string()])), CorsMode::AllowList);
}

#[test]
fn test_file_poller_skip_rule() {
    assert!(should_process_file("in.hl7"));
    assert!(!should_process_file("in.hl7.processed"));
}

#[test]
fn test_row_payload_is_flat_object() {
    let payload = row_to_payload(vec![
        ("id".to_string(), "7".to_string()),
        ("name".to_string(), "Ada".to_string()),
    ]);
    let v: serde_json::Value = serde_json::from_str(&payload).unwrap();
    assert_eq!(v["id"], "7");
    assert_eq!(v["name"], "Ada");
}

#[test]
fn test_default_channel_shape() {
    assert_eq!(default_max_retries(), Some(3));
    let c = default_hello_channel();
    assert_eq!(c.id, HELLO_WORLD_CHANNEL_ID);
    assert_eq!(c.name, "Hello World Channel");
    assert!(c.enabled);
    assert_eq!(c.processors.len(), 1);
    assert_eq!(c.destinations.len(), 1);
    assert_eq!(c.max_retries, Some(3));
}

#[test]
fn test_origins() {
    assert_eq!(mirthbr::listeners::origin_for_tcp(6661, "10.0.0.1:4000"), "TCP :6661 from 10.0.0.1:4000");
    assert_eq!(mirthbr::listeners::origin_for_http(8080, "/api", "10.0.0.1"), "HTTP :8080/api from 10.0.0.1");
    assert_eq!(mirthbr::listeners::origin_for_file("in.hl7"), "File: in.hl7");
}
