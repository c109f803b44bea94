use distributed_api_layer::framing::LineFramer;
use distributed_api_layer::ingest::{ack_status, Ack, IngestAction, IngestEvent, IngestStage, Ingestion, StreamTally};
use distributed_api_layer::tiers::{
    dedupe_key, event_bus_enabled, is_new_event, plan_cache, processed_total_key,
    CachePlan, SetNxReply,
};

fn bytes(frames: &[&str]) -> Vec<Vec<u8>> {
    frames.iter().map(|s| s.as_bytes().to_vec()).collect()
}

fn frames_of(chunks: &[&[u8]]) -> Vec<Vec<u8>> {
    let mut framer = LineFramer::new();
    let mut out = Vec::new();
    for chunk in chunks {
        out.extend(framer.push_chunk(chunk));
    }
    if let Some(last) = framer.finish() {
        out.push(last);
    }
    out
}

#[test]
fn framer_splits_lines_and_keeps_the_rest() {
    let mut framer = LineFramer::new();
    assert_eq!(framer.push_chunk(b"a\n\nb"), bytes(&["a"]));
    assert_eq!(framer.push_chunk(b"c\nd"), bytes(&["bc"]));
    assert_eq!(framer.push_chunk(b""), Vec::<Vec<u8>>::new());
    assert_eq!(framer.finish(), Some(b"d".to_vec()));
}

#[test]
fn framer_finish_without_pending_bytes() {
    let mut framer = LineFramer::new();
    assert_eq!(framer.push_chunk(b"{\"x\":1}\n"), bytes(&["{\"x\":1}"]));
    assert_eq!(framer.finish(), None);
    assert_eq!(LineFramer::new().finish(), None);
}

#[test]
fn framer_keeps_carriage_returns() {
    assert_eq!(frames_of(&[b"a\r\nb\r\n"]), bytes(&["a\r", "b\r"]));
}

#[test]
fn frames_do_not_depend_on_chunking() {
    let body: &[u8] = b"{\"event_id\":\"e1\"}\n\n{\"event_id\":\"e2\"}\n{\"event_id\":\"e3\"}";
    let whole = frames_of(&[body]);
    assert_eq!(whole.len(), 3);
    for cut in 0..=body.len() {
        assert_eq!(frames_of(&[&body[..cut], &body[cut..]]), whole, "cut at {cut}");
    }
    let single_bytes: Vec<&[u8]> = body.chunks(1).collect();
    assert_eq!(frames_of(&single_bytes), whole);
    for size in 2..8 {
        let pieces: Vec<&[u8]> = body.chunks(size).collect();
        assert_eq!(frames_of(&pieces), whole, "chunks of {size}");
    }
}

#[test]
fn ingestion_runs_register_count_publish_reply() {
    let (s, a) = Ingestion::start("tx_9921".to_string(), 3, 300);
    assert!(matches!(a, IngestAction::RegisterEvent { ref event_id, ttl_secs: 300 } if event_id == "tx_9921"));
    let (s, a) = s.step(IngestEvent::Registered(is_new_event(Some(SetNxReply::Stored))));
    assert!(matches!(a, IngestAction::CountElements { elements: 3 }));
    let (s, a) = s.step(IngestEvent::Counted);
    assert!(matches!(a, IngestAction::Publish { ref key } if key == "tx_9921"));
    let (s, a) = s.step(IngestEvent::Published);
    assert!(s.stage == IngestStage::Done);
    match a {
        IngestAction::Reply(ack) => assert!(ack == Ack { processed_elements: 3, duplicate: false }),
        _ => panic!("expected a reply"),
    }
    assert_eq!(ack_status(), "ACK_RECEIVED_SUCCESS");
}

#[test]
fn ingestion_marks_duplicates() {
    let (s, _) = Ingestion::start("dup".to_string(), 0, 10);
    let (s, _) = s.step(IngestEvent::Registered(is_new_event(Some(SetNxReply::AlreadySet))));
    let (s, _) = s.step(IngestEvent::Counted);
    let (_, a) = s.step(IngestEvent::Published);
    match a {
        IngestAction::Reply(ack) => assert!(ack == Ack { processed_elements: 0, duplicate: true }),
        _ => panic!("expected a reply"),
    }
}

#[test]
fn ingestion_ignores_out_of_order_events() {
    let (s, _) = Ingestion::start("e".to_string(), 2, 5);
    let (s, a) = s.step(IngestEvent::Counted);
    assert!(s.stage == IngestStage::Registering);
    assert!(matches!(a, IngestAction::RegisterEvent { .. }));
    let (s, _) = s.step(IngestEvent::Registered(true));
    let (s, a) = s.step(IngestEvent::Published);
    assert!(s.stage == IngestStage::Counting);
    assert!(matches!(a, IngestAction::CountElements { elements: 2 }));
}

#[test]
fn tally_counts_frames_and_elements() {
    let mut t = StreamTally::new();
    assert_eq!((t.frames, t.processed_elements), (0, 0));
    t.record_frame(3);
    t.record_frame(0);
    t.record_frame(5);
    assert_eq!((t.frames, t.processed_elements), (3, 8));
}

#[test]
fn cache_keys_and_replies() {
    assert_eq!(dedupe_key("tx_9921"), "telemetry:seen:tx_9921");
    assert_eq!(dedupe_key(""), "telemetry:seen:");
    assert_eq!(processed_total_key(), "telemetry:processed_total");
    assert!(is_new_event(None));
    assert!(is_new_event(Some(SetNxReply::Stored)));
    assert!(is_new_event(Some(SetNxReply::Failed)));
    assert!(!is_new_event(Some(SetNxReply::AlreadySet)));
}

#[test]
fn cache_plans() {
    assert!(matches!(plan_cache(None, true), CachePlan::Disabled));
    match plan_cache(Some("redis://a:1"), false) {
        CachePlan::Single(u) => assert_eq!(u, "redis://a:1"),
        _ => panic!("expected a single node"),
    }
    match plan_cache(Some(" redis://a:1 , redis://b:2"), true) {
        CachePlan::Cluster(nodes) => assert_eq!(nodes, vec!["redis://a:1".to_string(), "redis://b:2".to_string()]),
        _ => panic!("expected a cluster"),
    }
}

#[test]
fn cache_plans_refuse_bad_addresses() {
    assert!(matches!(plan_cache(Some("not-a-url"), false), CachePlan::Disabled));
    assert!(matches!(plan_cache(Some(""), false), CachePlan::Disabled));
    assert!(matches!(plan_cache(Some("http://a:1"), false), CachePlan::Disabled));
    assert!(matches!(plan_cache(Some("redis://0.0.0.0:6379"), false), CachePlan::Disabled));
    assert!(matches!(plan_cache(Some("redis://a:1,redis://b:2,"), true), CachePlan::Disabled));
    assert!(matches!(plan_cache(Some("redis://a:1,,redis://b:2"), true), CachePlan::Disabled));
    assert!(matches!(plan_cache(Some("redis://:x@a:1,redis://:y@b:2"), true), CachePlan::Disabled));
    assert!(matches!(plan_cache(Some(""), true), CachePlan::Disabled));
}

#[test]
fn event_bus_needs_brokers() {
    assert!(!event_bus_enabled(&Vec::new()));
    assert!(event_bus_enabled(&vec!["k:9092".to_string()]));
}
