use babble_boop::chatbox::{chatbox_packet, chatbox_packets, chunk_message, typing_packet};
use babble_boop::rate_limiter::RateLimiter;

fn decode(bytes: &[u8]) -> rosc::OscMessage {
    match rosc::decoder::decode_udp(bytes).unwrap().1 {
        rosc::OscPacket::Message(m) => m,
        _ => panic!("expected a message"),
    }
}

#[test]
fn chunk_counts_follow_length_and_cap() {
    let a300: String = "a".repeat(300);
    assert_eq!(chunk_message("", 5).len(), 0);
    assert_eq!(chunk_message(&"b".repeat(144), 5).len(), 1);
    assert_eq!(chunk_message(&"b".repeat(145), 5).len(), 2);
    assert_eq!(chunk_message(&a300, 5).len(), 3);
    assert_eq!(chunk_message(&a300, 2).len(), 2);
    assert_eq!(chunk_message(&a300, 0).len(), 0);
    let chunks = chunk_message(&a300, 5);
    assert_eq!(chunks[0].chars().count(), 144);
    assert_eq!(chunks[2].chars().count(), 12);
}

#[test]
fn chunks_split_on_characters_not_bytes() {
    let text: String = "é".repeat(150) + "日本";
    let chunks = chunk_message(&text, 3);
    assert_eq!(chunks.len(), 2);
    assert_eq!(chunks[0], "é".repeat(144));
    assert_eq!(chunks[1], "é".repeat(6) + "日本");
    assert_eq!(chunks.concat(), text);
}

#[test]
fn capped_chunks_rebuild_a_prefix() {
    let text: String = (0..400).map(|i| char::from(b'a' + (i % 26) as u8)).collect();
    let chunks = chunk_message(&text, 2);
    let joined = chunks.concat();
    assert_eq!(joined.len(), 288);
    assert!(text.starts_with(&joined));
}

#[test]
fn only_first_chunk_notifies() {
    let text = "x".repeat(400);
    let packets = chatbox_packets(&text, 10);
    assert_eq!(packets.len(), 3);
    for (i, p) in packets.iter().enumerate() {
        let m = decode(p);
        assert_eq!(m.addr, "/chatbox/input");
        assert_eq!(m.args.len(), 3);
        assert_eq!(m.args[1], rosc::OscType::Bool(true));
        assert_eq!(m.args[2], rosc::OscType::Bool(i == 0));
    }
    let first = decode(&packets[0]);
    assert_eq!(first.args[0], rosc::OscType::String("x".repeat(144)));
    let last = decode(&packets[2]);
    assert_eq!(last.args[0], rosc::OscType::String("x".repeat(112)));
}

#[test]
fn single_packet_carries_text() {
    let m = decode(&chatbox_packet("hola", 3));
    assert_eq!(
        m.args,
        vec![rosc::OscType::String("hola".to_string()), rosc::OscType::Bool(true), rosc::OscType::Bool(false)]
    );
}

#[test]
fn typing_packets_carry_state() {
    let on = decode(&typing_packet(true));
    assert_eq!(on.addr, "/chatbox/typing");
    assert_eq!(on.args, vec![rosc::OscType::Bool(true)]);
    let off = decode(&typing_packet(false));
    assert_eq!(off.args, vec![rosc::OscType::Bool(false)]);
}

#[test]
fn full_window_waits_for_its_end_then_proceeds() {
    let mut r = RateLimiter::new(3);
    assert_eq!(r.acquire(1_000), 0);
    assert_eq!(r.acquire(2_000), 0);
    assert_eq!(r.acquire(30_000), 0);
    assert_eq!(r.request_count(), 3);
    // the window opened at the first call, 1 000 ms
    assert_eq!(r.acquire(41_000), 20_000);
    assert_eq!(r.request_count(), 1);
    // the call that waited opened a new window at 61 000 ms
    assert_eq!(r.acquire(61_500), 0);
    assert_eq!(r.acquire(62_000), 0);
    assert_eq!(r.acquire(63_000), 58_000);
}

#[test]
fn window_resets_after_a_minute() {
    let mut r = RateLimiter::new(1);
    assert_eq!(r.acquire(0), 0);
    assert_eq!(r.acquire(60_000), 0);
    assert_eq!(r.acquire(60_001), 59_999);
}

#[test]
fn zero_limit_always_waits_a_window() {
    let mut r = RateLimiter::new(0);
    assert_eq!(r.acquire(5), 60_000);
    assert_eq!(r.acquire(60_005), 60_000);
}
