use rtsp2webrtc::api::{health, list_streams, stream_detail};
use rtsp2webrtc::codec::H264CodecInfo;
use rtsp2webrtc::error::AppError;
use rtsp2webrtc::registry::Registry;
use rtsp2webrtc::stream::{
    ActivePuller, CreateAction, CreateEvent, ProbeOutcome, StreamManager, Unsubscribed,
};
use std::rc::Rc;
use std::sync::Arc;

type Manager = StreamManager<&'static str, Rc<()>, u16, u32>;

fn info(payload_type: u8) -> H264CodecInfo {
    H264CodecInfo {
        payload_type,
        sps: vec![1, 2],
        pps: vec![3],
    }
}

fn probed(
    sid: &str,
    relay: &'static str,
    outcome: ProbeOutcome,
) -> CreateEvent<&'static str, Rc<()>, u16> {
    CreateEvent::Probed {
        sid: sid.to_string(),
        relay: Arc::new(relay),
        puller: ActivePuller::Ffmpeg(1),
        codec_info: info(97),
        outcome,
    }
}

fn add(manager: &mut Manager, sid: &str, url: &str) {
    match manager.create_dynamic(url, probed(sid, "relay", ProbeOutcome::Packet)) {
        CreateAction::Created(id) => assert_eq!(id, sid),
        _ => panic!("not created"),
    }
}

fn other_text<T>(result: Result<T, AppError>) -> String {
    match result {
        Err(AppError::Other(text)) => text,
        _ => panic!("no such error"),
    }
}

#[test]
fn new_source_gets_a_random_id() {
    let mut manager = Manager::new();
    let mut ids = Vec::new();
    for _ in 0..2 {
        match manager.create_dynamic("rtsp://a", CreateEvent::Requested) {
            CreateAction::StartRtsp {
                sid,
                relay_capacity,
            } => {
                assert_eq!(relay_capacity, 256);
                assert_eq!(sid.len(), 36);
                assert_eq!(&sid[14..15], "4");
                assert_eq!(sid.matches('-').count(), 4);
                assert!(sid.chars().all(|c| c == '-' || c.is_ascii_hexdigit()));
                assert_eq!(sid, sid.to_lowercase());
                ids.push(sid);
            }
            _ => panic!("no start"),
        }
    }
    assert_ne!(ids[0], ids[1]);
}

#[test]
fn known_source_is_reused() {
    let mut manager = Manager::new();
    add(&mut manager, "one", "rtsp://a");
    add(&mut manager, "two", "rtsp://b");
    match manager.create_dynamic("rtsp://b", CreateEvent::Requested) {
        CreateAction::Reuse(id) => assert_eq!(id, "two"),
        _ => panic!("not reused"),
    }
}

#[test]
fn slower_request_loses_its_pull() {
    let mut manager = Manager::new();
    add(&mut manager, "one", "rtsp://a");
    let puller = Rc::new(());
    let event = CreateEvent::Probed {
        sid: "late".to_string(),
        relay: Arc::new("late"),
        puller: ActivePuller::Retina(Rc::clone(&puller)),
        codec_info: info(98),
        outcome: ProbeOutcome::Packet,
    };
    match manager.create_dynamic("rtsp://a", event) {
        CreateAction::Reuse(id) => assert_eq!(id, "one"),
        _ => panic!("not reused"),
    }
    assert_eq!(Rc::strong_count(&puller), 1);
    assert!(manager.stream_info("late").is_none());
    assert_eq!(manager.list_streams().len(), 1);
}

#[test]
fn h265_source_is_transcoded() {
    let mut manager = Manager::new();
    let event = CreateEvent::RtspStarted {
        sid: "s".to_string(),
        native: Err(AppError::H265Required),
    };
    match manager.create_dynamic("rtsp://a", event) {
        CreateAction::StartFfmpeg { sid } => assert_eq!(sid, "s"),
        _ => panic!("not transcoded"),
    }
    let event = CreateEvent::FfmpegStarted {
        sid: "s".to_string(),
        transcoder: Ok((7, info(96))),
    };
    match manager.create_dynamic("rtsp://a", event) {
        CreateAction::Probe {
            sid,
            puller: ActivePuller::Ffmpeg(puller),
            codec_info,
            timeout_secs,
        } => {
            assert_eq!((sid.as_str(), puller, timeout_secs), ("s", 7, 5));
            assert_eq!(codec_info.payload_type, 96);
        }
        _ => panic!("not probed"),
    }
    let event = CreateEvent::RtspStarted {
        sid: "s".to_string(),
        native: Ok((Rc::new(()), info(99))),
    };
    match manager.create_dynamic("rtsp://a", event) {
        CreateAction::Probe {
            puller: ActivePuller::Retina(_),
            codec_info,
            ..
        } => assert_eq!(codec_info.payload_type, 99),
        _ => panic!("not probed"),
    }
}

#[test]
fn failed_starts_are_reported() {
    let mut manager = Manager::new();
    let event = CreateEvent::RtspStarted {
        sid: "s".to_string(),
        native: Err(AppError::Rtsp("401".to_string())),
    };
    match manager.create_dynamic("rtsp://a", event) {
        CreateAction::Failed(AppError::Rtsp(text)) => assert_eq!(text, "401"),
        _ => panic!("no error"),
    }
    let event = CreateEvent::FfmpegStarted {
        sid: "s".to_string(),
        transcoder: Err(AppError::H265Required),
    };
    assert!(matches!(
        manager.create_dynamic("rtsp://a", event),
        CreateAction::Failed(AppError::H265Required)
    ));
    match manager.create_dynamic(
        "rtsp://a",
        probed("s", "r", ProbeOutcome::RelayError("lagged".to_string())),
    ) {
        CreateAction::Failed(AppError::Rtsp(text)) => assert_eq!(text, "RTP relay error: lagged"),
        _ => panic!("no error"),
    }
    match manager.create_dynamic("rtsp://a", probed("s", "r", ProbeOutcome::TimedOut)) {
        CreateAction::Failed(AppError::Rtsp(text)) => assert_eq!(
            text,
            "no RTP data received within 5s — check credentials or stream URL"
        ),
        _ => panic!("no error"),
    }
    assert!(manager.list_streams().is_empty());
}

#[test]
fn subscribers_are_limited() {
    let mut manager = Manager::new();
    add(&mut manager, "one", "rtsp://a");
    add(&mut manager, "two", "rtsp://b");
    assert_eq!(
        other_text(manager.subscribe_existing("one", 0, 5)),
        "global peer limit reached (0)"
    );
    assert_eq!(
        other_text(manager.subscribe_existing("none", 10, 5)),
        "stream 'none' not found"
    );
    let subscription = manager.subscribe_existing("one", 10, 1).unwrap();
    assert_eq!(*subscription.relay, "relay");
    assert_eq!(subscription.codec_info.payload_type, 97);
    assert_eq!(subscription.codec_info.sps, vec![1, 2]);
    assert_eq!(subscription.cancelled_timer, None);
    assert_eq!(
        other_text(manager.subscribe_existing("one", 10, 1)),
        "stream limit reached (1)"
    );
    assert!(manager.subscribe_existing("two", 2, 1).is_ok());
    assert_eq!(
        other_text(manager.subscribe_existing("none", 2, 100)),
        "global peer limit reached (2)"
    );
    assert_eq!(manager.total_peers(), 2);
    assert_eq!(
        other_text(manager.subscribe_existing("none", usize::MAX, 0)),
        "stream 'none' not found"
    );
}

#[test]
fn last_subscriber_starts_the_idle_timer() {
    let mut manager = Manager::new();
    add(&mut manager, "one", "rtsp://a");
    manager.subscribe_existing("one", 9, 9).unwrap();
    manager.subscribe_existing("one", 9, 9).unwrap();
    assert!(matches!(manager.unsubscribe("one"), Unsubscribed::Remaining(1)));
    assert!(!manager.idle_timeout("one"));
    assert!(matches!(manager.unsubscribe("one"), Unsubscribed::Idle { secs: 30 }));
    assert_eq!(manager.total_peers(), 0);
    assert_eq!(manager.arm_idle_timer("one", 11), None);
    let again = manager.subscribe_existing("one", 9, 9).unwrap();
    assert_eq!(again.cancelled_timer, Some(11));
    assert!(!manager.idle_timeout("one"));
    assert!(matches!(manager.unsubscribe("one"), Unsubscribed::Idle { secs: 30 }));
    assert_eq!(manager.arm_idle_timer("one", 12), None);
    assert!(manager.idle_timeout("one"));
    assert!(!manager.idle_timeout("one"));
    assert!(manager.stream_info("one").is_none());
    assert!(matches!(manager.unsubscribe("one"), Unsubscribed::Unknown));
    assert_eq!(manager.arm_idle_timer("one", 13), Some(13));
    assert_eq!(manager.total_peers(), 0);
}

#[test]
fn removal_takes_its_peers_off_the_count() {
    let mut manager = Manager::new();
    add(&mut manager, "one", "rtsp://a");
    add(&mut manager, "two", "rtsp://b");
    manager.subscribe_existing("one", 9, 9).unwrap();
    assert_eq!(manager.remove_stream("two"), Ok(None));
    assert_eq!(manager.total_peers(), 1);
    assert_eq!(manager.remove_stream("one"), Ok(None));
    assert_eq!(manager.total_peers(), 0);
    assert!(manager.list_streams().is_empty());
    assert!(matches!(manager.unsubscribe("one"), Unsubscribed::Unknown));
    assert_eq!(manager.total_peers(), 0);
    assert_eq!(
        manager.remove_stream("one"),
        Err("stream 'one' not found".to_string())
    );
    add(&mut manager, "three", "rtsp://a");
    assert!(manager.subscribe_existing("three", 1, 1).is_ok());
}

#[test]
fn removal_hands_out_the_timer_and_drops_the_puller() {
    let mut manager = Manager::new();
    let puller = Rc::new(());
    let event = CreateEvent::Probed {
        sid: "one".to_string(),
        relay: Arc::new("r"),
        puller: ActivePuller::Retina(Rc::clone(&puller)),
        codec_info: info(1),
        outcome: ProbeOutcome::Packet,
    };
    assert!(matches!(
        manager.create_dynamic("rtsp://a", event),
        CreateAction::Created(_)
    ));
    assert_eq!(Rc::strong_count(&puller), 2);
    manager.arm_idle_timer("one", 4);
    assert_eq!(manager.remove_stream("one"), Ok(Some(4)));
    assert_eq!(Rc::strong_count(&puller), 1);
    assert!(matches!(
        manager.create_dynamic("rtsp://a", CreateEvent::Requested),
        CreateAction::StartRtsp { .. }
    ));
}

#[test]
fn leaving_an_unwatched_stream_counts_nobody_out() {
    let mut manager = Manager::new();
    add(&mut manager, "one", "rtsp://a");
    add(&mut manager, "two", "rtsp://b");
    assert!(matches!(manager.unsubscribe("one"), Unsubscribed::Idle { secs: 30 }));
    assert_eq!(manager.total_peers(), 0);
    manager.subscribe_existing("two", 9, 9).unwrap();
    assert!(matches!(manager.unsubscribe("one"), Unsubscribed::Idle { secs: 30 }));
    assert_eq!(manager.total_peers(), 1);
    assert_eq!(manager.stream_info("one").unwrap().subscribers, 0);
}

#[test]
fn replaced_stream_takes_its_peers_along() {
    let mut manager = Manager::new();
    add(&mut manager, "one", "rtsp://a");
    add(&mut manager, "two", "rtsp://b");
    manager.subscribe_existing("one", 9, 9).unwrap();
    manager.subscribe_existing("one", 9, 9).unwrap();
    manager.subscribe_existing("two", 9, 9).unwrap();
    add(&mut manager, "one", "rtsp://c");
    assert_eq!(manager.total_peers(), 1);
    assert_eq!(manager.stream_info("one").unwrap().url, "rtsp://c");
    assert_eq!(manager.stream_info("one").unwrap().subscribers, 0);
}

#[test]
fn total_is_the_sum_over_the_list() {
    let mut manager = Manager::new();
    let sum = |manager: &Manager| -> usize {
        manager.list_streams().iter().map(|s| s.subscribers).sum()
    };
    assert_eq!(manager.total_peers(), 0);
    for (sid, url) in [("one", "rtsp://a"), ("two", "rtsp://b"), ("three", "rtsp://c")] {
        add(&mut manager, sid, url);
    }
    for id in ["one", "two", "two", "three", "three", "three"] {
        manager.subscribe_existing(id, 9, 9).unwrap();
        assert_eq!(manager.total_peers(), sum(&manager));
    }
    assert_eq!(manager.total_peers(), 6);
    for id in ["one", "one", "three", "none"] {
        manager.unsubscribe(id);
        assert_eq!(manager.total_peers(), sum(&manager));
    }
    assert_eq!(manager.total_peers(), 4);
    manager.remove_stream("three").unwrap();
    assert_eq!(manager.total_peers(), 2);
    assert!(manager.idle_timeout("one"));
    assert_eq!(manager.total_peers(), sum(&manager));
}

#[test]
fn streams_are_described() {
    let mut manager = Manager::new();
    add(&mut manager, "one", "rtsp://a");
    add(&mut manager, "two", "rtsp://b");
    manager.subscribe_existing("two", 9, 9).unwrap();
    manager.subscribe_existing("two", 9, 9).unwrap();

    let mut list = list_streams(&manager).streams;
    list.sort_by(|a, b| a.id.cmp(&b.id));
    assert_eq!(list.len(), 2);
    assert_eq!((list[0].id.as_str(), list[0].url.as_str()), ("one", "rtsp://a"));
    assert_eq!((list[0].subscribers, list[0].connected), (0, false));
    assert_eq!((list[1].id.as_str(), list[1].url.as_str()), ("two", "rtsp://b"));
    assert_eq!((list[1].subscribers, list[1].connected), (2, true));

    let copy = list[1].clone();
    assert_eq!((copy.id, copy.url), (list[1].id.clone(), list[1].url.clone()));
    assert_eq!((copy.subscribers, copy.connected), (2, true));

    let detail = stream_detail(&manager, "two").unwrap().clone();
    assert_eq!(detail.id, "two");
    assert_eq!(detail.url, "rtsp://b");
    assert_eq!(detail.codec, "h264");
    assert_eq!(detail.payload_type, 97);
    assert_eq!((detail.subscribers, detail.connected), (2, true));
    match stream_detail(&manager, "three") {
        Err(text) => assert_eq!(text, "stream not found"),
        Ok(_) => panic!("found"),
    }

    let health = health(&manager, 77);
    assert_eq!(health.status, "ok");
    assert_eq!(health.uptime_secs, 77);
    assert_eq!(health.active_streams, 1);
    assert_eq!(health.total_peers, 2);
}

#[test]
fn registry_maps_names_to_values() {
    let mut map: Registry<i32> = Registry::new();
    assert_eq!(map.insert("a".to_string(), 1), None);
    assert_eq!(map.insert("b".to_string(), 2), None);
    assert_eq!(map.insert("a".to_string(), 3), Some(1));
    assert_eq!(map.len(), 2);
    assert_eq!(map.get("a"), Some(&3));
    *map.get_mut("b").unwrap() = 5;
    assert_eq!(map.remove("b"), Some(5));
    assert_eq!(map.remove("b"), None);
    assert!(map.get_mut("b").is_none());
    assert_eq!((map.key_at(0).as_str(), *map.value_at(0)), ("a", 3));
}
