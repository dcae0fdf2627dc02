use std::cell::RefCell;
use std::rc::Rc;

use realtime_rs::channel::{CallBackListener, Channel, EventCallback};
use realtime_rs::codec::{decode_frame, heartbeat_frame, join_frame};
use realtime_rs::error::Error;
use realtime_rs::heartbeat::Heartbeat;
use realtime_rs::socket::Socket;

type Log = Rc<RefCell<Vec<(String, String)>>>;

#[derive(Clone)]
struct Recorder {
    label: &'static str,
    log: Log,
}

impl Recorder {
    fn new(label: &'static str, log: &Log) -> Recorder {
        Recorder { label, log: log.clone() }
    }
}

impl EventCallback for Recorder {
    fn call(&self, payload: &serde_json::Map<String, serde_json::Value>) {
        let rendered = serde_json::Value::Object(payload.clone()).to_string();
        self.log.borrow_mut().push((self.label.to_string(), rendered));
    }
}

fn text_channel() -> (
    Channel<Recorder>,
    futures::channel::mpsc::UnboundedReceiver<String>,
) {
    let (tx, rx) = futures::channel::mpsc::unbounded::<String>();
    (Channel::new("random".to_string(), tx), rx)
}

#[test]
fn generate_json_correctly() {
    let topic = "random";
    let json = join_frame(topic);
    let expected = "{\"event\":\"phx_join\",\"payload\":{},\"ref\":null,\"topic\":\"random\"}";
    assert_eq!(json, expected);
}

#[test]
fn join_frame_escapes_topic() {
    let json = join_frame("a\"b\\c");
    let expected =
        "{\"event\":\"phx_join\",\"payload\":{},\"ref\":null,\"topic\":\"a\\\"b\\\\c\"}";
    assert_eq!(json, expected);
}

#[test]
fn heartbeat_frame_is_canonical() {
    let mut payload = serde_json::Map::new();
    payload.insert(
        "msg".to_string(),
        serde_json::Value::String("ping".to_string()),
    );
    let mut envelope = serde_json::Map::new();
    envelope.insert(
        "topic".to_string(),
        serde_json::Value::String("phoenix".to_string()),
    );
    envelope.insert(
        "event".to_string(),
        serde_json::Value::String("heartbeat".to_string()),
    );
    envelope.insert("payload".to_string(), serde_json::Value::Object(payload));
    envelope.insert("ref".to_string(), serde_json::Value::Null);
    let expected = serde_json::Value::Object(envelope).to_string();
    assert_eq!(heartbeat_frame(), expected);
}

#[test]
fn get_join_uses_channel_topic() {
    let (channel, _rx) = text_channel();
    assert_eq!(channel.get_join(), join_frame("random"));
}

#[test]
fn join_sends_the_handshake_frame() {
    let (channel, mut rx) = text_channel();
    assert!(channel.join().is_ok());
    let sent = rx.try_next().unwrap().unwrap();
    assert_eq!(
        sent,
        "{\"event\":\"phx_join\",\"payload\":{},\"ref\":null,\"topic\":\"random\"}"
    );
}

#[test]
fn join_fails_once_the_transport_is_gone() {
    let (channel, rx) = text_channel();
    drop(rx);
    assert_eq!(channel.join(), Err(Error::ConnectionError));
}

#[test]
fn listener_pairs_callback_with_event() {
    let log: Log = Rc::new(RefCell::new(Vec::new()));
    let listener = CallBackListener::new(Recorder::new("a", &log), "INSERT".to_string());
    assert_eq!(listener.event, "INSERT");
    assert_eq!(listener.callback.label, "a");
}

#[test]
fn off_without_matching_listener_is_not_found() {
    let (mut channel, _rx) = text_channel();
    assert_eq!(channel.off("INSERT"), Err(Error::NotFoundError));
    let log: Log = Rc::new(RefCell::new(Vec::new()));
    channel.on("INSERT".to_string(), Recorder::new("a", &log));
    assert_eq!(channel.off("UPDATE"), Err(Error::NotFoundError));
    assert_eq!(channel.listeners.len(), 1);
    assert!(channel.off("INSERT").is_ok());
    assert_eq!(channel.listeners.len(), 0);
    assert_eq!(channel.off("INSERT"), Err(Error::NotFoundError));
}

#[test]
fn off_removes_the_first_matching_listener_only() {
    let (mut channel, _rx) = text_channel();
    let log: Log = Rc::new(RefCell::new(Vec::new()));
    channel.on("e".to_string(), Recorder::new("a", &log));
    channel.on("e".to_string(), Recorder::new("b", &log));
    assert!(channel.off("e").is_ok());
    let hits = channel.dispatch("e", &serde_json::Map::new());
    assert_eq!(hits, vec![0]);
    assert_eq!(log.borrow().as_slice(), &[("b".to_string(), "{}".to_string())]);
}

#[test]
fn dispatch_invokes_matching_and_wildcard_listeners_in_order() {
    let (mut channel, _rx) = text_channel();
    let log: Log = Rc::new(RefCell::new(Vec::new()));
    channel
        .on("INSERT".to_string(), Recorder::new("a", &log))
        .on("*".to_string(), Recorder::new("b", &log))
        .on("UPDATE".to_string(), Recorder::new("c", &log));
    let mut payload = serde_json::Map::new();
    payload.insert("id".to_string(), serde_json::Value::from(1u64));
    let hits = channel.dispatch("INSERT", &payload);
    assert_eq!(hits, vec![0, 1]);
    assert_eq!(
        log.borrow().as_slice(),
        &[
            ("a".to_string(), "{\"id\":1}".to_string()),
            ("b".to_string(), "{\"id\":1}".to_string()),
        ]
    );
}

#[test]
fn socket_new_rejects_a_malformed_url() {
    match Socket::<Recorder>::new("not a url") {
        Ok(_) => panic!("a malformed URL must be rejected"),
        Err(e) => assert_eq!(e, Error::ParseError),
    }
}

#[test]
fn socket_new_starts_unconnected() {
    let socket = Socket::<Recorder>::new("ws://localhost:4000/socket/websocket").unwrap();
    assert!(!socket.connected);
    assert!(socket.socket_tx.is_none());
    assert!(socket.channels.is_empty());
}

#[test]
fn end_to_end_join_and_dispatch() {
    let log: Log = Rc::new(RefCell::new(Vec::new()));
    let mut socket = Socket::<Recorder>::new("ws://localhost:4000/socket/websocket").unwrap();
    let (tx, mut rx) = futures::channel::mpsc::unbounded::<String>();
    socket.connect(tx);
    assert!(socket.connected);
    {
        let channel = socket.set_channel("realtime:public".to_string());
        assert!(channel.join().is_ok());
        channel.on("INSERT".to_string(), Recorder::new("cb", &log));
    }
    let sent = rx.try_next().unwrap().unwrap();
    assert_eq!(
        sent,
        "{\"event\":\"phx_join\",\"payload\":{},\"ref\":null,\"topic\":\"realtime:public\"}"
    );
    let hits = socket.handle_text(
        "{\"topic\":\"realtime:public\",\"event\":\"INSERT\",\"payload\":{\"id\":1},\"ref\":null}",
    );
    assert_eq!(hits, vec![(0, 0)]);
    assert_eq!(
        log.borrow().as_slice(),
        &[("cb".to_string(), "{\"id\":1}".to_string())]
    );
    let hits = socket.handle_text(
        "{\"topic\":\"other\",\"event\":\"INSERT\",\"payload\":{\"id\":2},\"ref\":null}",
    );
    assert!(hits.is_empty());
    assert_eq!(log.borrow().len(), 1);
    socket.close();
    assert!(!socket.connected);
    assert_eq!(socket.channels.len(), 1);
}

#[test]
fn duplicate_topics_all_receive_the_frame() {
    let log: Log = Rc::new(RefCell::new(Vec::new()));
    let mut socket = Socket::<Recorder>::new("ws://localhost:4000/socket/websocket").unwrap();
    let (tx, _rx) = futures::channel::mpsc::unbounded::<String>();
    socket.connect(tx);
    socket
        .set_channel("t".to_string())
        .on("e".to_string(), Recorder::new("first", &log));
    socket
        .set_channel("t".to_string())
        .on("e".to_string(), Recorder::new("second", &log));
    let hits = socket.handle_text("{\"topic\":\"t\",\"event\":\"e\",\"payload\":{},\"ref\":null}");
    assert_eq!(hits, vec![(0, 0), (1, 0)]);
    assert_eq!(
        log.borrow().as_slice(),
        &[
            ("first".to_string(), "{}".to_string()),
            ("second".to_string(), "{}".to_string()),
        ]
    );
}

#[test]
fn malformed_frames_are_skipped_without_dispatch() {
    let log: Log = Rc::new(RefCell::new(Vec::new()));
    let mut socket = Socket::<Recorder>::new("ws://localhost:4000/socket/websocket").unwrap();
    let (tx, _rx) = futures::channel::mpsc::unbounded::<String>();
    socket.connect(tx);
    socket
        .set_channel("t".to_string())
        .on("*".to_string(), Recorder::new("any", &log));
    let malformed = [
        "not json at all",
        "{\"event\":\"e\",\"payload\":{},\"ref\":null}",
        "{\"topic\":\"t\",\"payload\":{},\"ref\":null}",
        "{\"topic\":\"t\",\"event\":\"e\",\"ref\":null}",
        "{\"topic\":\"t\",\"event\":\"e\",\"payload\":3,\"ref\":null}",
        "{\"topic\":7,\"event\":\"e\",\"payload\":{},\"ref\":null}",
        "{\"topic\":\"t\",\"event\":[],\"payload\":{},\"ref\":null}",
        "[1,2,3]",
    ];
    for text in malformed {
        let hits = socket.handle_text(text);
        assert!(hits.is_empty());
    }
    assert!(log.borrow().is_empty());
    let hits = socket.handle_text("{\"topic\":\"t\",\"event\":\"e\",\"payload\":{},\"ref\":null}");
    assert_eq!(hits, vec![(0, 0)]);
    assert_eq!(log.borrow().len(), 1);
}

#[test]
fn decode_frame_reports_decode_error() {
    for text in ["{", "42", "{\"topic\":\"t\"}"] {
        match decode_frame(text) {
            Ok(_) => panic!("malformed text must not decode"),
            Err(e) => assert_eq!(e, Error::DecodeError),
        }
    }
    let frame =
        decode_frame("{\"topic\":\"t\",\"event\":\"e\",\"payload\":{\"k\":true},\"ref\":null}")
            .unwrap();
    assert_eq!(frame.topic, "t");
    assert_eq!(frame.event, "e");
    assert!(frame.payload.get("k").is_some());
}

#[test]
fn heartbeat_stops_permanently_after_a_failed_send() {
    let mut heartbeat = Heartbeat::new(5);
    assert_eq!(heartbeat.interval_secs, 5);
    assert!(heartbeat.should_send());
    heartbeat.record_send(true);
    assert!(heartbeat.should_send());
    heartbeat.record_send(false);
    assert!(!heartbeat.should_send());
    heartbeat.record_send(true);
    assert!(!heartbeat.should_send());
}

#[test]
fn heartbeat_ticks_emit_the_liveness_frame_until_a_failure() {
    let mut heartbeat = Heartbeat::new(2);
    assert_eq!(heartbeat.tick_frame().as_deref(), Some(heartbeat_frame().as_str()));
    heartbeat.record_send(true);
    assert_eq!(heartbeat.tick_frame().as_deref(), Some(heartbeat_frame().as_str()));
    heartbeat.record_send(false);
    assert_eq!(heartbeat.tick_frame(), None);
    heartbeat.record_send(true);
    assert_eq!(heartbeat.tick_frame(), None);
}
