//! Tests of the protocol adapters' logic: CQ-code lexing, bot message
//! normalization and the webhook's challenge answer.

use danmaku::cqcode::cq_to_text;
use danmaku::onebot::Message;
use danmaku::onebot::MessageEvent;
use danmaku::onebot::MessageSegment;
use danmaku::onebot::Sender;
use danmaku::onebot::handle_message_event;
use danmaku::webhook::Op;
use danmaku::webhook::expand_seed;
use danmaku::webhook::receive_message;
use danmaku::webhook::sign_challenge;
use danmaku::webhook::strip_mention_str;

use ed25519_dalek::Verifier;

#[test]
fn cq_to_text_splits_text_and_codes() {
    let parts = cq_to_text("hello [CQ:at,qq=123] world");
    assert_eq!(parts, vec!["hello ", "@123", " world"]);
}

#[test]
fn cq_to_text_prefers_name_over_qq() {
    let parts = cq_to_text("[CQ:at,qq=5,name=alice]");
    assert_eq!(parts, vec!["@alice"]);
}

#[test]
fn cq_to_text_unescapes_entities() {
    let parts = cq_to_text("[CQ:at,qq=2,name=a&amp;b]");
    assert_eq!(parts, vec!["@a&b"]);
}

#[test]
fn cq_to_text_renders_unknown_codes_as_nothing() {
    let parts = cq_to_text("[CQ:face,id=14]yes");
    assert_eq!(parts, vec!["", "yes"]);
}

#[test]
fn cq_to_text_keeps_unclosed_brackets_as_text() {
    let parts = cq_to_text("[CQ:open");
    assert_eq!(parts, vec!["[", "CQ:open"]);
}

#[test]
fn cq_to_text_at_without_arguments_is_empty() {
    let parts = cq_to_text("[CQ:at,x]");
    assert_eq!(parts, vec![""]);
}

#[test]
fn cq_to_text_empty_code_is_plain_text() {
    let parts = cq_to_text("[CQ:]");
    assert_eq!(parts, vec!["[", "CQ:]"]);
}

#[test]
fn cq_to_text_at_with_empty_arguments_is_unknown() {
    let parts = cq_to_text("[CQ:at,]");
    assert_eq!(parts, vec![""]);
}

#[test]
fn cq_to_text_lone_brackets_are_text() {
    let parts = cq_to_text("a[b");
    assert_eq!(parts, vec!["a", "[", "b"]);
}

#[test]
fn sender_name_prefers_card_then_nickname() {
    let with_card = Sender {
        user_id: 1,
        nickname: Some("nick".to_string()),
        card: Some("card".to_string()),
    };
    assert_eq!(with_card.name(), "card");
    let empty_card = Sender {
        user_id: 1,
        nickname: Some("nick".to_string()),
        card: Some("".to_string()),
    };
    assert_eq!(empty_card.name(), "nick");
    let nameless = Sender { user_id: -42, nickname: None, card: None };
    assert_eq!(nameless.name(), "-42");
}

#[test]
fn segment_to_text_renders_each_kind() {
    let text = MessageSegment::Text { text: "plain".to_string() };
    assert_eq!(text.to_text(), "plain");
    let named = MessageSegment::At { qq: 9, name: Some("bob".to_string()) };
    assert_eq!(named.to_text(), "@bob");
    let unnamed = MessageSegment::At { qq: 9, name: Some("".to_string()) };
    assert_eq!(unnamed.to_text(), "@9");
    let numbered = MessageSegment::At { qq: 7, name: None };
    assert_eq!(numbered.to_text(), "@7");
    assert_eq!(MessageSegment::Unknown.to_text(), "");
}

#[test]
fn message_segments_renders_both_forms() {
    let raw = Message::Text("hi [CQ:at,qq=1]".to_string());
    assert_eq!(raw.segments(), vec!["hi ", "@1"]);
    let listed = Message::Segments(vec![
        MessageSegment::Text { text: "hi ".to_string() },
        MessageSegment::At { qq: 1, name: None },
    ]);
    assert_eq!(listed.segments(), vec!["hi ", "@1"]);
}

fn event(post_type: &str, group_id: Option<i64>, message: Option<Message>) -> MessageEvent {
    MessageEvent {
        post_type: post_type.to_string(),
        time: 0,
        self_id: 99,
        group_id,
        sender: Some(Sender {
            user_id: 10,
            nickname: Some("alice".to_string()),
            card: None,
        }),
        message,
    }
}

#[test]
fn message_event_becomes_a_packet() {
    let e = event(
        "message",
        Some(5),
        Some(Message::Text(" [CQ:at,qq=10] hi ".to_string())),
    );
    let p = handle_message_event(e, 50).expect("a packet");
    assert_eq!(p.group, "5");
    assert_eq!(p.danmaku.text, "@10 hi");
    assert_eq!(p.danmaku.sender.as_deref(), Some("alice"));
    assert_eq!(p.danmaku.color, None);
    assert_eq!(p.danmaku.size, None);
}

#[test]
fn non_message_events_are_ignored() {
    let e = event("notice", Some(5), Some(Message::Text("hi".to_string())));
    assert!(handle_message_event(e, 50).is_none());
}

#[test]
fn events_without_group_or_body_are_ignored() {
    let no_group = event("message", None, Some(Message::Text("hi".to_string())));
    assert!(handle_message_event(no_group, 50).is_none());
    let no_body = event("message", Some(5), None);
    assert!(handle_message_event(no_body, 50).is_none());
}

#[test]
fn empty_bot_message_is_dropped() {
    let blank = event("message", Some(5), Some(Message::Text("   ".to_string())));
    assert!(handle_message_event(blank, 50).is_none());
    let only_codes = event(
        "message",
        Some(5),
        Some(Message::Text("[CQ:face,id=3]".to_string())),
    );
    assert!(handle_message_event(only_codes, 50).is_none());
}

#[test]
fn oversized_bot_message_is_dropped() {
    let e = event("message", Some(5), Some(Message::Text("123456".to_string())));
    assert!(handle_message_event(e, 5).is_none());
    let fits = event("message", Some(5), Some(Message::Text("12345".to_string())));
    assert!(handle_message_event(fits, 5).is_some());
}

#[test]
fn op_matches_its_tag() {
    assert!(Op::<13>::matches(13));
    assert!(!Op::<13>::matches(0));
    assert!(Op::<0>::matches(0));
}

#[test]
fn strip_mention_removes_leading_mentions() {
    assert_eq!(strip_mention_str("<@123> hello"), " hello");
    assert_eq!(strip_mention_str("<@!9>hi"), "hi");
    assert_eq!(strip_mention_str("no mention"), "no mention");
    assert_eq!(strip_mention_str("<@> odd"), "<@> odd");
    assert_eq!(strip_mention_str("<@12x"), "<@12x");
    assert_eq!(strip_mention_str("mid <@1> kept"), "mid <@1> kept");
}

#[test]
fn webhook_message_becomes_a_packet() {
    let p = receive_message(
        Some("<@!77>  hello there ".to_string()),
        "chan9".to_string(),
        "carol".to_string(),
        50,
    )
    .expect("a packet");
    assert_eq!(p.group, "chan9");
    assert_eq!(p.danmaku.text, "hello there");
    assert_eq!(p.danmaku.sender.as_deref(), Some("carol"));
}

#[test]
fn webhook_message_without_content_is_ignored() {
    assert!(receive_message(None, "c".to_string(), "u".to_string(), 50).is_none());
}

#[test]
fn empty_webhook_message_is_dropped() {
    let blank = receive_message(
        Some("  ".to_string()),
        "c".to_string(),
        "u".to_string(),
        50,
    );
    assert!(blank.is_none());
    let mention_only = receive_message(
        Some("<@123> ".to_string()),
        "c".to_string(),
        "u".to_string(),
        50,
    );
    assert!(mention_only.is_none());
}

#[test]
fn oversized_webhook_message_is_dropped() {
    let r = receive_message(
        Some("123456".to_string()),
        "c".to_string(),
        "u".to_string(),
        5,
    );
    assert!(r.is_none());
}

#[test]
fn expand_seed_cycles_the_secret() {
    let seed = expand_seed(&vec![1u8, 2, 3]);
    assert_eq!(seed.len(), 32);
    for (i, b) in seed.iter().enumerate() {
        assert_eq!(*b, [1u8, 2, 3][i % 3]);
    }
}

fn hex_decode(s: &str) -> Vec<u8> {
    let bytes = s.as_bytes();
    assert!(bytes.len() % 2 == 0);
    let mut out = Vec::new();
    for pair in bytes.chunks(2) {
        let hi = (pair[0] as char).to_digit(16).unwrap();
        let lo = (pair[1] as char).to_digit(16).unwrap();
        out.push((hi * 16 + lo) as u8);
    }
    out
}

#[test]
fn challenge_signature_verifies() {
    let secret = "sec";
    let event_ts = "1700000000";
    let plain_token = "token123";
    let hex_sig = sign_challenge(secret, event_ts, plain_token);
    assert_eq!(hex_sig.len(), 128);

    let seed_bytes: Vec<u8> = secret
        .as_bytes()
        .iter()
        .cycle()
        .take(ed25519_dalek::SECRET_KEY_LENGTH)
        .copied()
        .collect();
    let seed: ed25519_dalek::SecretKey = seed_bytes.try_into().unwrap();
    let signing = ed25519_dalek::SigningKey::from(seed);
    let verifying = signing.verifying_key();

    let mut msg = event_ts.to_string();
    msg.push_str(plain_token);
    let sig_bytes: [u8; 64] = hex_decode(&hex_sig).try_into().unwrap();
    let signature = ed25519_dalek::Signature::from_bytes(&sig_bytes);
    verifying.verify(msg.as_bytes(), &signature).expect("signature must verify");
}
