use netdisco::frame::FrameBuffer;
use netdisco::frame::decode_frames;
use netdisco::messages::Message;

fn query_text(sender: &str, receiver: &str, msg_id: &str) -> String {
    format!(
        "{{\"sender_id\":\"{}\",\"receiver_id\":\"{}\",\"msg_id\":\"{}\",\"type\":\"query\"}}",
        sender, receiver, msg_id
    )
}

#[test]
fn test_frame_no_closing_brace_keeps_accumulating() {
    let (msgs, rem) = decode_frames("{\"sender_id\":\"a");
    assert!(msgs.is_empty());
    assert_eq!(rem, "{\"sender_id\":\"a");
}

#[test]
fn test_frame_empty_buffer() {
    let (msgs, rem) = decode_frames("");
    assert!(msgs.is_empty());
    assert_eq!(rem, "");
}

#[test]
fn test_frame_single_message_and_partial_tail() {
    let one = query_text("a", "b", "m1");
    let buffer = format!("{}{}", one, "{\"sender");
    let (msgs, rem) = decode_frames(&buffer);
    assert_eq!(msgs.len(), 1);
    assert_eq!(msgs[0].sender_id, "a");
    assert_eq!(msgs[0].receiver_id, "b");
    assert_eq!(rem, "{\"sender");
}

#[test]
fn test_frame_two_concatenated_messages() {
    let buffer = format!("{}{}", query_text("a", "b", "m1"), query_text("c", "d", "m2"));
    let (msgs, rem) = decode_frames(&buffer);
    assert_eq!(msgs.len(), 2);
    assert_eq!(msgs[0].sender_id, "a");
    assert_eq!(msgs[1].sender_id, "c");
    assert_eq!(msgs[1].receiver_id, "d");
    assert_eq!(rem, "");
}

// a well-formed message immediately followed by a malformed one yields
// exactly the well-formed message, and decoding reports no failure
#[test]
fn test_frame_drops_malformed_message() {
    let good = query_text("a", "b", "m1");
    let bad = "{\"sender_id\":oops}";
    let buffer = format!("{}{}", good, bad);
    let (msgs, rem) = decode_frames(&buffer);
    assert_eq!(msgs.len(), 1);
    assert_eq!(msgs[0].sender_id, "a");
    assert_eq!(msgs[0].msg_id, "m1");
    assert_eq!(rem, "");
}

#[test]
fn test_frame_malformed_then_wellformed() {
    let bad = "{garbage}";
    let good = query_text("x", "y", "m9");
    let buffer = format!("{}{}", bad, good);
    let (msgs, rem) = decode_frames(&buffer);
    assert_eq!(msgs.len(), 1);
    assert_eq!(msgs[0].sender_id, "x");
    assert_eq!(rem, "");
}

fn collect_feed(chunks: &[&str]) -> (Vec<Message>, String) {
    let mut buf = FrameBuffer::new();
    let mut all = Vec::new();
    for chunk in chunks {
        let mut msgs = buf.feed(chunk);
        all.append(&mut msgs);
    }
    (all, buf.data)
}

// feeding the decoder one byte at a time eventually yields the same messages,
// in the same order, as feeding the whole buffer at once
#[test]
fn test_frame_byte_at_a_time_equals_batch() {
    let stream = format!(
        "{}{}{}",
        query_text("a", "b", "m1"),
        "{\"sender_id\":\"c\",\"receiver_id\":\"d\",\"msg_id\":\"m2\",\"type\":\"neighbors\",\"n\":[\"a\",\"e\"]}",
        "{\"sender_id\":\"e"
    );

    let (batch_msgs, batch_rem) = collect_feed(&[&stream]);

    let chunks: Vec<String> = stream.chars().map(|c| c.to_string()).collect();
    let chunk_refs: Vec<&str> = chunks.iter().map(|s| s.as_str()).collect();
    let (inc_msgs, inc_rem) = collect_feed(&chunk_refs);

    assert_eq!(inc_msgs.len(), batch_msgs.len());
    assert_eq!(inc_msgs.len(), 2);
    for (a, b) in inc_msgs.iter().zip(batch_msgs.iter()) {
        assert_eq!(a.sender_id, b.sender_id);
        assert_eq!(a.receiver_id, b.receiver_id);
        assert_eq!(a.msg_id, b.msg_id);
        assert_eq!(a.msg_type, b.msg_type);
        assert_eq!(a.n, b.n);
    }
    assert_eq!(inc_msgs[1].n, Some(vec!["a".to_string(), "e".to_string()]));
    assert_eq!(inc_rem, batch_rem);
    assert_eq!(inc_rem, "{\"sender_id\":\"e");
}

#[test]
fn test_frame_buffer_keeps_remainder_between_feeds() {
    let one = query_text("a", "b", "m1");
    let (head, tail) = one.split_at(10);
    let mut buf = FrameBuffer::new();
    assert!(buf.feed(head).is_empty());
    let msgs = buf.feed(tail);
    assert_eq!(msgs.len(), 1);
    assert_eq!(msgs[0].sender_id, "a");
    assert_eq!(buf.data, "");
}
