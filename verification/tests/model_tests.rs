use eslrs::api::{ConnectError, ESLConfig};
use eslrs::event::{json_try_from_raw, EventExt, LazyParseCell, PlainEvent};
use eslrs::{ESLConnInner, ESLError, ErrorKind, Event};

#[test]
fn test_lazy_cell_parses_once_and_caches() {
    let data = b"Event-Name: HEARTBEAT\n\nrest".to_vec();
    let mut cell: LazyParseCell<PlainEvent> = LazyParseCell::new(data);
    assert!(cell.is_pending());
    {
        let first = cell.get();
        let parsed = first.as_ref().unwrap();
        assert_eq!(parsed.get_header("Event-Name"), Some("HEARTBEAT"));
        assert_eq!(parsed.get_body().unwrap().as_slice(), b"rest");
    }
    assert!(!cell.is_pending());
    {
        let again = cell.get();
        let parsed = again.as_ref().unwrap();
        assert_eq!(parsed.get_header("Event-Name"), Some("HEARTBEAT"));
    }
    assert!(!cell.is_pending());
}

#[test]
fn test_event_classification_predicates() {
    let mut conn = ESLConnInner::new();
    conn.feed(b"Content-Type: text/event-plain\nEvent-Name: HEARTBEAT\n\n");
    let raw = conn.next_event().unwrap();
    assert!(!raw.is_reply());
    assert!(!raw.is_api_response());
    let event = Event::from(raw);
    assert!(event.is_plain_event());
    assert!(!event.is_json());
    assert_eq!(event.get_content_type(), Some("text/event-plain"));

    let mut conn = ESLConnInner::new();
    conn.feed(b"Content-Type: text/event-json\nContent-Length: 13\n\n{\"a\": [1, 2]}");
    let raw = conn.next_event().unwrap();
    let event = Event::from(raw);
    assert!(event.is_json());
    assert!(!event.is_plain_event());
    let value = json_try_from_raw(event.get_body().unwrap()).unwrap();
    assert_eq!(value["a"][1], serde_json::Value::from(2));
}

#[test]
fn test_json_parse_error_is_reported() {
    let bad = b"{not json".to_vec();
    assert!(json_try_from_raw(&bad).is_err());
}

#[test]
fn test_error_kinds() {
    let e = ESLError::new(ErrorKind::ConnectionClosed);
    assert_eq!(*e.kind(), ErrorKind::ConnectionClosed);
    let e = ESLError::new(ErrorKind::IO);
    assert_eq!(*e.kind(), ErrorKind::IO);
    let e = ESLError::new(ErrorKind::InternalError("Missing Sink Reply"));
    assert!(matches!(e.kind(), ErrorKind::InternalError(_)));

    let c = ConnectError::from(ESLError::new(ErrorKind::ConnectionClosed));
    assert!(matches!(c, ConnectError::Connection(_)));
}

#[test]
fn test_io_error_keeps_its_cause() {
    let io = std::io::Error::new(std::io::ErrorKind::BrokenPipe, "pipe closed");
    let e = ESLError::from(io);
    assert_eq!(*e.kind(), ErrorKind::IO);
    assert_eq!(
        e.cause().unwrap().kind(),
        std::io::ErrorKind::BrokenPipe
    );
    assert!(ESLError::new(ErrorKind::ConnectionClosed).cause().is_none());
}

#[test]
fn test_event_ext_predicates_on_plain_event() {
    let reply = PlainEvent::try_from_raw(
        &b"Content-Type: command/reply\nReply-Text: +OK\n\n".to_vec(),
    )
    .unwrap();
    assert!(EventExt::is_reply(&reply));
    assert!(!reply.is_api_response());
    assert_eq!(EventExt::get_content_type(&reply), Some("command/reply"));

    let api = PlainEvent::try_from_raw(&b"Content-Type: api/response\n\n".to_vec()).unwrap();
    assert!(api.is_api_response());
    assert!(!EventExt::is_reply(&api));

    let plain = PlainEvent::try_from_raw(&b"Content-Type: text/event-plain\n\n".to_vec()).unwrap();
    assert!(plain.is_plain_data());
    assert!(!plain.is_json());

    let json = PlainEvent::try_from_raw(&b"Content-Type: text/event-json\n\n".to_vec()).unwrap();
    assert!(json.is_json());
    assert!(!json.is_plain_data());
}

#[test]
fn test_config_defaults() {
    let config = ESLConfig::default();
    assert_eq!(config.password, "");
    assert_eq!(config.timeout_secs, 5);

    let config = ESLConfig::from("ClueCon");
    assert_eq!(config.password, "ClueCon");
    assert_eq!(config.timeout_secs, 5);
}
