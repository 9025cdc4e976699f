//! End-to-end and component tests of the distribution pipeline: buffer
//! loss, chain filtering, broadcast fan-out and the session loops.

use danmaku::broadcast::Broadcaster;
use danmaku::broadcast::RecvOutcome;
use danmaku::buffer::FanInBuffer;
use danmaku::config::Config;
use danmaku::danmaku::Danmaku;
use danmaku::danmaku::DanmakuPacket;
use danmaku::middleware::MiddlewareChain;
use danmaku::middleware::RegexFilter;
use danmaku::middleware::build_chain;
use danmaku::middleware::run_middleware;
use danmaku::session::EgressAction;
use danmaku::session::EgressEvent;
use danmaku::session::EgressSession;
use danmaku::session::IngressAction;
use danmaku::session::IngressEvent;
use danmaku::session::IngressSession;

fn dm(text: &str) -> Danmaku {
    Danmaku { text: text.to_string(), color: None, size: None, sender: None }
}

fn packet(group: &str, text: &str) -> DanmakuPacket {
    DanmakuPacket { group: group.to_string(), danmaku: dm(text) }
}

fn config(dedup_window: i32) -> Config {
    Config {
        rate_limit: 10,
        max_length: 50,
        dedup_window,
        buffer_capacity: 32,
        lag_capacity: 32,
        bot_secret: "0".to_string(),
    }
}

fn chain_of(cfg: &Config, patterns: Vec<String>) -> MiddlewareChain {
    build_chain(cfg, &patterns).expect("invalid regex")
}

#[test]
fn buffer_overflow_keeps_latest() {
    let mut buffer = FanInBuffer::new(2);
    buffer.push(packet("g", "A"));
    buffer.push(packet("g", "B"));
    buffer.push(packet("g", "C"));
    let first = buffer.pop().expect("first");
    let second = buffer.pop().expect("second");
    assert_eq!(first.danmaku.text, "B");
    assert_eq!(second.danmaku.text, "C");
    assert!(buffer.pop().is_none());
}

#[test]
fn buffer_drains_in_fifo_order() {
    let mut buffer = FanInBuffer::new(8);
    buffer.push(packet("g", "one"));
    buffer.push(packet("g", "two"));
    assert_eq!(buffer.pop().unwrap().danmaku.text, "one");
    assert_eq!(buffer.pop().unwrap().danmaku.text, "two");
    assert!(buffer.pop().is_none());
}

#[test]
fn dedup_window_suppresses_repeats() {
    let cfg = config(5);
    let mut chain = chain_of(&cfg, vec![]);
    assert!(chain.run(packet("g", "hi"), 0).is_some());
    assert!(chain.run(packet("g", "hi"), 3_000).is_none());
    assert!(chain.run(packet("g", "hi"), 6_000).is_some());
}

#[test]
fn dedup_keys_are_per_group_and_text() {
    let cfg = config(5);
    let mut chain = chain_of(&cfg, vec![]);
    assert!(chain.run(packet("g1", "hi"), 0).is_some());
    assert!(chain.run(packet("g2", "hi"), 0).is_some());
    assert!(chain.run(packet("g1", "other"), 0).is_some());
    assert!(chain.run(packet("g1", "hi"), 1_000).is_none());
}

#[test]
fn disabled_dedup_passes_repeats() {
    let cfg = config(0);
    let mut chain = chain_of(&cfg, vec![]);
    assert!(chain.run(packet("g", "hi"), 0).is_some());
    assert!(chain.run(packet("g", "hi"), 1).is_some());
}

#[test]
fn blacklist_drops_matching_text() {
    let cfg = config(0);
    let mut chain = chain_of(&cfg, vec!["bad".to_string(), "^spam$".to_string()]);
    assert!(chain.run(packet("g", "this is bad stuff"), 0).is_none());
    assert!(chain.run(packet("g", "spam"), 0).is_none());
    assert!(chain.run(packet("g", "this is fine"), 0).is_some());
    assert!(chain.run(packet("g", "spam and more"), 0).is_some());
}

#[test]
fn invalid_blacklist_pattern_is_reported() {
    assert!(RegexFilter::new(&vec!["(".to_string()]).is_err());
    assert!(build_chain(&config(0), &vec!["[".to_string()]).is_err());
    assert!(RegexFilter::new(&vec!["fine".to_string()]).is_ok());
}

#[test]
fn broadcaster_delivers_in_order() {
    let mut sink = Broadcaster::new(8);
    let mut sub = sink.subscribe();
    sink.publish(packet("g", "one"));
    sink.publish(packet("g", "two"));
    match sub.recv(&sink) {
        RecvOutcome::Packet(p) => assert_eq!(p.danmaku.text, "one"),
        _ => panic!("expected first packet"),
    }
    match sub.recv(&sink) {
        RecvOutcome::Packet(p) => assert_eq!(p.danmaku.text, "two"),
        _ => panic!("expected second packet"),
    }
    assert!(matches!(sub.recv(&sink), RecvOutcome::Pending));
}

#[test]
fn broadcaster_reports_lag_and_continues() {
    let mut sink = Broadcaster::new(2);
    let mut sub = sink.subscribe();
    sink.publish(packet("g", "one"));
    sink.publish(packet("g", "two"));
    sink.publish(packet("g", "three"));
    match sub.recv(&sink) {
        RecvOutcome::Lagged(n) => assert_eq!(n, 1),
        _ => panic!("expected lag"),
    }
    match sub.recv(&sink) {
        RecvOutcome::Packet(p) => assert_eq!(p.danmaku.text, "two"),
        _ => panic!("expected second packet"),
    }
    match sub.recv(&sink) {
        RecvOutcome::Packet(p) => assert_eq!(p.danmaku.text, "three"),
        _ => panic!("expected third packet"),
    }
    assert!(matches!(sub.recv(&sink), RecvOutcome::Pending));
}

#[test]
fn broadcaster_signals_end_of_stream() {
    let mut sink = Broadcaster::new(4);
    let mut sub = sink.subscribe();
    sink.publish(packet("g", "last"));
    sink.close();
    assert!(matches!(sub.recv(&sink), RecvOutcome::Packet(_)));
    assert!(matches!(sub.recv(&sink), RecvOutcome::Closed));
}

#[test]
fn subscription_starts_at_now() {
    let mut sink = Broadcaster::new(4);
    sink.publish(packet("g", "before"));
    let mut sub = sink.subscribe();
    assert!(matches!(sub.recv(&sink), RecvOutcome::Pending));
    sink.publish(packet("g", "after"));
    match sub.recv(&sink) {
        RecvOutcome::Packet(p) => assert_eq!(p.danmaku.text, "after"),
        _ => panic!("expected only the later packet"),
    }
}

#[test]
fn egress_session_isolates_groups() {
    let mut session = EgressSession::new("A".to_string());
    match session.step(EgressEvent::Received(packet("A", "for a"))) {
        EgressAction::Forward(d) => assert_eq!(d.text, "for a"),
        _ => panic!("own group must be forwarded"),
    }
    assert!(matches!(
        session.step(EgressEvent::Received(packet("B", "for b"))),
        EgressAction::Discard
    ));
    assert!(matches!(session.step(EgressEvent::Lagged(3)), EgressAction::Discard));
    assert!(matches!(session.step(EgressEvent::Ping(vec![1])), EgressAction::Pong(_)));
    assert!(matches!(session.step(EgressEvent::Tick), EgressAction::PingOut));
    assert!(matches!(session.step(EgressEvent::Close), EgressAction::CloseConnection));
}

#[test]
fn egress_session_ends_on_stream_end() {
    let mut session = EgressSession::new("A".to_string());
    assert!(matches!(session.step(EgressEvent::StreamEnd), EgressAction::CloseConnection));
}

#[test]
fn ingress_session_enforces_max_length() {
    let cfg = config(0);
    let mut chain = chain_of(&cfg, vec![]);
    let mut buffer = FanInBuffer::new(8);
    let mut sink = Broadcaster::new(8);
    let mut sub = sink.subscribe();
    let mut session = IngressSession::new("g".to_string(), 10, 5, 0);
    match session.step(IngressEvent::Data(Some(dm("12345"))), 0) {
        IngressAction::Push(p) => buffer.push(p),
        _ => panic!("exactly max characters must be admitted"),
    }
    assert!(matches!(
        session.step(IngressEvent::Data(Some(dm("123456"))), 1),
        IngressAction::Discard
    ));
    match session.step(IngressEvent::Data(Some(dm("ok"))), 2) {
        IngressAction::Push(p) => buffer.push(p),
        _ => panic!("the connection must stay open after an oversized text"),
    }
    run_middleware(&mut buffer, &mut chain, &mut sink, 2);
    match sub.recv(&sink) {
        RecvOutcome::Packet(p) => assert_eq!(p.danmaku.text, "12345"),
        _ => panic!("the exact-length text must be delivered"),
    }
    match sub.recv(&sink) {
        RecvOutcome::Packet(p) => assert_eq!(p.danmaku.text, "ok"),
        _ => panic!("the later valid text must be delivered"),
    }
    assert!(matches!(sub.recv(&sink), RecvOutcome::Pending));
}

#[test]
fn ingress_session_discards_undecodable_frames() {
    let mut session = IngressSession::new("g".to_string(), 10, 50, 0);
    assert!(matches!(session.step(IngressEvent::Data(None), 0), IngressAction::Discard));
    assert!(matches!(
        session.step(IngressEvent::Data(Some(dm("still here"))), 1),
        IngressAction::Push(_)
    ));
}

#[test]
fn ingress_session_closes_on_rate_limit() {
    let quota = 3u32;
    let mut session = IngressSession::new("g".to_string(), quota, 50, 0);
    let mut buffer = FanInBuffer::new(8);
    for k in 0..quota {
        match session.step(IngressEvent::Data(Some(dm(&format!("m{}", k)))), 0) {
            IngressAction::Push(p) => buffer.push(p),
            _ => panic!("within quota must be admitted"),
        }
    }
    assert!(matches!(
        session.step(IngressEvent::Data(Some(dm("over"))), 0),
        IngressAction::CloseConnection
    ));
    for k in 0..quota {
        assert_eq!(buffer.pop().unwrap().danmaku.text, format!("m{}", k));
    }
}

#[test]
fn ingress_session_answers_ping_and_close() {
    let mut session = IngressSession::new("g".to_string(), 5, 50, 0);
    match session.step(IngressEvent::Ping(vec![7, 8]), 0) {
        IngressAction::Pong(payload) => assert_eq!(payload, vec![7, 8]),
        _ => panic!("ping must be answered"),
    }
    assert!(matches!(session.step(IngressEvent::Tick, 1), IngressAction::PingOut));
    assert!(matches!(session.step(IngressEvent::Close, 2), IngressAction::CloseConnection));
}

#[test]
fn token_bucket_refills_over_time() {
    let mut session = IngressSession::new("g".to_string(), 1, 50, 0);
    assert!(matches!(
        session.step(IngressEvent::Data(Some(dm("a"))), 0),
        IngressAction::Push(_)
    ));
    let mut session2 = IngressSession::new("g".to_string(), 1, 50, 0);
    assert!(matches!(
        session2.step(IngressEvent::Data(Some(dm("a"))), 0),
        IngressAction::Push(_)
    ));
    assert!(matches!(
        session2.step(IngressEvent::Data(Some(dm("b"))), 1_000),
        IngressAction::Push(_)
    ));
}

#[test]
fn pipeline_preserves_submission_order() {
    let cfg = config(0);
    let mut chain = chain_of(&cfg, vec![]);
    let mut buffer = FanInBuffer::new(8);
    let mut sink = Broadcaster::new(8);
    let mut sub = sink.subscribe();
    let mut session = IngressSession::new("g".to_string(), 10, 50, 0);
    for text in ["first", "second", "third"] {
        match session.step(IngressEvent::Data(Some(dm(text))), 0) {
            IngressAction::Push(p) => buffer.push(p),
            _ => panic!("must be admitted"),
        }
    }
    run_middleware(&mut buffer, &mut chain, &mut sink, 0);
    for text in ["first", "second", "third"] {
        match sub.recv(&sink) {
            RecvOutcome::Packet(p) => assert_eq!(p.danmaku.text, text),
            _ => panic!("expected a packet"),
        }
    }
}

#[test]
fn blacklisted_packet_reaches_no_subscriber() {
    let cfg = config(0);
    let mut chain = chain_of(&cfg, vec!["forbidden".to_string()]);
    let mut buffer = FanInBuffer::new(8);
    let mut sink = Broadcaster::new(8);
    let mut sub = sink.subscribe();
    buffer.push(packet("g", "a forbidden word"));
    buffer.push(packet("g", "a clean word"));
    run_middleware(&mut buffer, &mut chain, &mut sink, 0);
    match sub.recv(&sink) {
        RecvOutcome::Packet(p) => assert_eq!(p.danmaku.text, "a clean word"),
        _ => panic!("the clean packet must arrive"),
    }
    assert!(matches!(sub.recv(&sink), RecvOutcome::Pending));
}

#[test]
fn end_to_end_scenario() {
    let value: serde_json::Value =
        serde_json::from_str("{\"text\":\"hello\",\"sender\":\"alice\"}").unwrap();
    let decoded = Danmaku {
        text: value.get("text").and_then(|v| v.as_str()).unwrap().to_string(),
        color: value.get("color").and_then(|v| v.as_str()).map(|s| s.to_string()),
        size: value.get("size").and_then(|v| v.as_u64()),
        sender: value.get("sender").and_then(|v| v.as_str()).map(|s| s.to_string()),
    };

    let cfg = config(0);
    let mut chain = chain_of(&cfg, vec![]);
    let mut buffer = FanInBuffer::new(32);
    let mut sink = Broadcaster::new(32);
    let mut sub_room1 = sink.subscribe();
    let mut sub_room2 = sink.subscribe();
    let mut ingress = IngressSession::new("room1".to_string(), 10, 50, 0);
    let mut egress_room1 = EgressSession::new("room1".to_string());
    let mut egress_room2 = EgressSession::new("room2".to_string());

    match ingress.step(IngressEvent::Data(Some(decoded)), 0) {
        IngressAction::Push(p) => buffer.push(p),
        _ => panic!("the message must be admitted"),
    }
    run_middleware(&mut buffer, &mut chain, &mut sink, 0);

    match sub_room1.recv(&sink) {
        RecvOutcome::Packet(p) => match egress_room1.step(EgressEvent::Received(p)) {
            EgressAction::Forward(d) => {
                assert_eq!(d.text, "hello");
                assert_eq!(d.color, None);
                assert_eq!(d.size, None);
                assert_eq!(d.sender.as_deref(), Some("alice"));
            },
            _ => panic!("room1 must receive the danmaku"),
        },
        _ => panic!("room1's subscription must deliver the packet"),
    }
    match sub_room2.recv(&sink) {
        RecvOutcome::Packet(p) => {
            assert!(matches!(
                egress_room2.step(EgressEvent::Received(p)),
                EgressAction::Discard
            ));
        },
        _ => panic!("the subscription itself delivers every packet"),
    }
    assert!(matches!(sub_room2.recv(&sink), RecvOutcome::Pending));
}
