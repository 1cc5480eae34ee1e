use mirthbr::mllp::{mllp_wrap, MllpFrameAccumulator, MllpState};

#[test]
fn test_perfect_frame() {
    let mut acc = MllpFrameAccumulator::new(1000);
    let msg = "MSH|^~\\&|APP|FAC|...\rPID|1|...";
    let input = format!("\x0B{}\x1C\x0D", msg);

    let msgs = acc.feed(input.as_bytes());
    assert_eq!(msgs.len(), 1);
    assert_eq!(msgs[0], msg);
}

#[test]
fn test_fragmented_frame() {
    let mut acc = MllpFrameAccumulator::new(1000);
    let msg = "MSH|^~\\&|APP|FAC|...\rPID|1|...";

    let part1 = format!("\x0B{}", &msg[0..10]);
    let msgs1 = acc.feed(part1.as_bytes());
    assert_eq!(msgs1.len(), 0);
    assert_eq!(acc.state, MllpState::Accumulating);

    let part2 = format!("{}\x1C\x0D", &msg[10..]);
    let msgs2 = acc.feed(part2.as_bytes());
    assert_eq!(msgs2.len(), 1);
    assert_eq!(msgs2[0], msg);
}

#[test]
fn test_multiple_messages() {
    let mut acc = MllpFrameAccumulator::new(1000);
    let msg1 = "MSG1";
    let msg2 = "MSG2";
    let input = format!("\x0B{}\x1C\x0D\x0B{}\x1C\x0D", msg1, msg2);

    let msgs = acc.feed(input.as_bytes());
    assert_eq!(msgs.len(), 2);
    assert_eq!(msgs[0], msg1);
    assert_eq!(msgs[1], msg2);
}

#[test]
fn test_timeout_at_clock() {
    let mut acc = MllpFrameAccumulator::new(10);
    let msgs = acc.feed_at(b"\x0BPartial", 100);
    assert_eq!(msgs.len(), 0);

    // within the window: nothing happens
    assert!(!acc.check_timeout_at(105));
    assert_eq!(acc.state, MllpState::Accumulating);

    // past the window: the accumulator fails
    assert!(acc.check_timeout_at(120));
    match acc.state {
        MllpState::Error(e) => assert_eq!(e, "Timeout"),
        _ => panic!("Should be error"),
    }
    assert!(acc.buffer.is_empty());
}

#[test]
fn test_timeout_not_waiting_in_idle_state() {
    let mut acc = MllpFrameAccumulator::new(10);
    // never fed a start byte: no timeout however late the clock is
    assert!(!acc.check_timeout_at(1_000_000));
    assert_eq!(acc.state, MllpState::WaitingStart);
}

#[test]
fn test_restart_on_second_start_byte() {
    let mut acc = MllpFrameAccumulator::new(1000);
    // a lost trailer: the second start byte restarts the frame
    let msgs = acc.feed_at(b"\x0BLOST\x0BKEPT\x1C\x0D", 0);
    assert_eq!(msgs.len(), 1);
    assert_eq!(msgs[0], "KEPT");
}

#[test]
fn test_malformed_trailer_drops_frame() {
    let mut acc = MllpFrameAccumulator::new(1000);
    // end byte followed by something other than a carriage return
    let msgs = acc.feed_at(b"\x0BABC\x1CX", 0);
    assert_eq!(msgs.len(), 0);
    assert_eq!(acc.state, MllpState::WaitingStart);
}

#[test]
fn test_bytes_outside_frames_dropped() {
    let mut acc = MllpFrameAccumulator::new(1000);
    let msgs = acc.feed_at(b"noise\x0BDATA\x1C\x0Dmore noise", 0);
    assert_eq!(msgs.len(), 1);
    assert_eq!(msgs[0], "DATA");
}

#[test]
fn test_malformed_utf8_frame_emitted_lossily() {
    // a frame whose bytes are not valid UTF-8 is still emitted, read with
    // replacement characters
    let mut acc = MllpFrameAccumulator::new(1000);
    let msgs = acc.feed_at(b"\x0BA\xFFB\x1C\x0D", 0);
    assert_eq!(msgs.len(), 1);
    assert_eq!(msgs[0], "A\u{FFFD}B");
}

#[test]
fn test_wrap_frames_payload() {
    let framed = mllp_wrap(b"HELLO");
    assert_eq!(framed, b"\x0BHELLO\x1C\x0D");
}

#[test]
fn test_frame_round_trip() {
    // decode of a well-formed frame yields its content, whose re-encoding
    // is the frame again — whatever the split points
    let frame = mllp_wrap(b"MSH|^~\\&|A|B\rPID|1");
    let mut acc = MllpFrameAccumulator::new(1000);
    let (left, right) = frame.split_at(5);
    let mut msgs = acc.feed_at(left, 0);
    msgs.extend(acc.feed_at(right, 0));
    assert_eq!(msgs.len(), 1);
    assert_eq!(mllp_wrap(msgs[0].as_bytes()), frame);
    assert_eq!(acc.state, MllpState::WaitingStart);
}

#[test]
fn test_reset_returns_to_start() {
    let mut acc = MllpFrameAccumulator::new(1000);
    acc.feed_at(b"\x0Bpartial", 0);
    assert_eq!(acc.state, MllpState::Accumulating);
    acc.reset();
    assert_eq!(acc.state, MllpState::WaitingStart);
    assert!(acc.buffer.is_empty());
}
