use icap_gateway::verdict::{classify, decode_reply, encode_reply, Verdict};
use icap_gateway::worker::Worker;

#[test]
fn test_block_marker_yields_block() {
    assert_eq!(classify(b"this is malware"), Verdict::Block(b"Blocked by policy".to_vec()));
    assert_eq!(classify(b"phishing"), Verdict::Block(b"Blocked by policy".to_vec()));
    assert_eq!(classify(b"xxphishingxx"), Verdict::Block(b"Blocked by policy".to_vec()));
}

#[test]
fn test_block_marker_wins_over_rewrite_marker() {
    assert_eq!(classify(b"editme malware"), Verdict::Block(b"Blocked by policy".to_vec()));
    assert_eq!(classify(b"malware editme"), Verdict::Block(b"Blocked by policy".to_vec()));
}

#[test]
fn test_rewrite_marker_yields_modify() {
    assert_eq!(classify(b"please editme"), Verdict::Modify(b"please [MODIFIED]".to_vec()));
    assert_eq!(classify(b"editme"), Verdict::Modify(b"[MODIFIED]".to_vec()));
    assert_eq!(
        classify(b"a editme b editme c"),
        Verdict::Modify(b"a [MODIFIED] b [MODIFIED] c".to_vec())
    );
    assert_eq!(classify(b"editmeeditme"), Verdict::Modify(b"[MODIFIED][MODIFIED]".to_vec()));
    assert_eq!(classify(b"editeditme!"), Verdict::Modify(b"edit[MODIFIED]!".to_vec()));
}

#[test]
fn test_rewriting_adds_four_bytes_for_each_marker() {
    for (payload, count) in [
        (&b"editme"[..], 1usize),
        (b"a editme b editme c", 2),
        (b"editmeeditmeeditme", 3),
        (b"editeditmeme", 1),
        (b"eeditmeditme", 1),
    ] {
        match classify(payload) {
            Verdict::Modify(bytes) => {
                assert_eq!(bytes.len(), payload.len() + 4 * count);
                assert!(!bytes.windows(6).any(|w| w == b"editme"));
            },
            other => panic!("not rewritten: {:?}", other),
        }
    }
}

#[test]
fn test_other_payload_yields_allow() {
    assert_eq!(classify(b""), Verdict::Allow);
    assert_eq!(classify(b"hello world"), Verdict::Allow);
    assert_eq!(classify(b"Malware Phishing EditMe"), Verdict::Allow);
    assert_eq!(classify(b"malwar"), Verdict::Allow);
    assert_eq!(classify(b"BLOCKED"), Verdict::Allow);
}

#[test]
fn test_markers_are_found_in_bytes_that_are_no_text() {
    assert_eq!(
        classify(&[0xff, b'm', b'a', b'l', b'w', b'a', b'r', b'e', 0xfe]),
        Verdict::Block(b"Blocked by policy".to_vec())
    );
    assert_eq!(
        classify(&[0xff, b'e', b'd', b'i', b't', b'm', b'e', 0x00]),
        Verdict::Modify([&[0xffu8][..], b"[MODIFIED]", &[0x00u8][..]].concat())
    );
    assert_eq!(classify(&[0xff, 0xfe, 0x00]), Verdict::Allow);
}

#[test]
fn test_encode_reply() {
    assert_eq!(encode_reply(Verdict::Allow, b"payload"), b"payload");
    assert_eq!(encode_reply(Verdict::Modify(b"new".to_vec()), b"payload"), b"new");
    assert_eq!(encode_reply(Verdict::Block(b"why".to_vec()), b"payload"), b"BLOCKED");
}

#[test]
fn test_decode_reply() {
    assert_eq!(decode_reply(b"abc", b"abc".to_vec()), Verdict::Allow);
    assert_eq!(decode_reply(b"BLOCKED", b"BLOCKED".to_vec()), Verdict::Allow);
    assert_eq!(
        decode_reply(b"abc", b"BLOCKED".to_vec()),
        Verdict::Block(b"Blocked by policy".to_vec())
    );
    assert_eq!(
        decode_reply(b"abc", b"xxBLOCKEDxx".to_vec()),
        Verdict::Modify(b"xxBLOCKEDxx".to_vec())
    );
    assert_eq!(decode_reply(b"abc", b"BLOCKED ".to_vec()), Verdict::Modify(b"BLOCKED ".to_vec()));
    assert_eq!(decode_reply(b"abc", b"blocked".to_vec()), Verdict::Modify(b"blocked".to_vec()));
    assert_eq!(decode_reply(b"", b"BLOCKED".to_vec()), Verdict::Block(b"Blocked by policy".to_vec()));
    assert_eq!(decode_reply(b"abc", b"abd".to_vec()), Verdict::Modify(b"abd".to_vec()));
    assert_eq!(decode_reply(b"abc", Vec::new()), Verdict::Modify(Vec::new()));
}

#[test]
fn test_verdict_survives_the_channel() {
    for payload in [
        &b"clean"[..],
        b"has malware",
        b"phishing here",
        b"editme now",
        b"",
        b"BLOCKED",
        b"editme BLOCKED",
        b"BLOCKEDeditme",
        b"malware BLOCKED editme",
    ] {
        let verdict = classify(payload);
        let reply = encode_reply(verdict.clone(), payload);
        assert_eq!(decode_reply(payload, reply), verdict);
    }
}

#[test]
fn test_rewritten_payload_with_block_token_stays_modify() {
    let payload = b"editme BLOCKED";
    let verdict = classify(payload);
    assert_eq!(verdict, Verdict::Modify(b"[MODIFIED] BLOCKED".to_vec()));
    let reply = encode_reply(verdict, payload);
    assert_eq!(reply, b"[MODIFIED] BLOCKED");
    assert_eq!(decode_reply(payload, reply), Verdict::Modify(b"[MODIFIED] BLOCKED".to_vec()));
}

#[test]
fn test_worker_reply() {
    let worker = Worker::new("tcp://*:5555".to_string());
    assert_eq!(worker.reply(b"nothing to see"), b"nothing to see");
    assert_eq!(worker.reply(b"some malware"), b"BLOCKED");
    assert_eq!(worker.reply(b"a phishing mail"), b"BLOCKED");
    assert_eq!(worker.reply(b"x editme y"), b"x [MODIFIED] y");
    assert_eq!(worker.reply(b""), b"");
}
