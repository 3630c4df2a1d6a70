use eslrs::Command;
use eslrs::ESLConnInner;
use eslrs::ErrorKind;
use eslrs::event::Reply;

fn raw_event_bytes() -> Vec<u8> {
    let text: &[u8] = b"Content-Length: 582\n\
Content-Type: text/event-plain\n\
\n\
Job-UUID: 7f4db78a-17d7-11dd-b7a0-db4edd065621\n\
Job-Command: originate\n\
Job-Command-Arg: sofia/default/1005%20'%26park'\n\
Event-Name: BACKGROUND_JOB\n\
Core-UUID: 42bdf272-16e6-11dd-b7a0-db4edd065621\n\
FreeSWITCH-Hostname: ser\n\
FreeSWITCH-IPv4: 192.168.1.104\n\
FreeSWITCH-IPv6: 127.0.0.1\n\
Event-Date-Local: 2008-05-02%2007%3A37%3A03\n\
Event-Date-GMT: Thu,%2001%20May%202008%2023%3A37%3A03%20GMT\n\
Event-Date-timestamp: 1209685023894968\n\
Event-Calling-File: mod_event_socket.c\n\
Event-Calling-Function: api_exec\n\
Event-Calling-Line-Number: 609\n\
Content-Length: 41\n\
\n\
+OK 7f4de4bc-17d7-11dd-b7a0-db4edd065621";
    text.to_vec()
}

#[test]
fn test_eslconn_basic_framing() {
    let mut conn = ESLConnInner::new();
    conn.feed(&raw_event_bytes());
    let event = conn.next_event();

    assert!(event.is_some(), "Expected to receive an event");
    let event = event.unwrap();
    assert_eq!(event.get_header("Content-Type"), Some("text/event-plain"));
    assert!(
        event.get_body().is_some(),
        "Expected no body for this event"
    );
    assert!(event.get_body().unwrap().ends_with(b"db4edd065621"));
}

#[test]
fn test_eslconn_basic_framing_multi_event() {
    let mut conn = ESLConnInner::new();
    conn.feed(&raw_event_bytes());
    conn.feed(&raw_event_bytes());

    for _ in 0..2 {
        let event = conn.next_event();
        assert!(event.is_some(), "Expected to receive an event");
        let event = event.unwrap();
        assert!(event.get_body().is_some(), "Expected body for this event");
        assert_eq!(event.get_header("Content-Type"), Some("text/event-plain"));
        assert!(event.get_body().unwrap().ends_with(b"db4edd065621"));
    }
}

#[test]
fn test_send_recv_takes_first_reply_and_keeps_event_order() {
    let mut conn = ESLConnInner::new();
    let bytes = conn.start_send(&Command::api("status"));
    assert_eq!(bytes.as_slice(), b"api status\r\n\r\n");
    conn.flush_done();

    // Two asynchronous events arrive around the reply; the reply answers
    // the in-flight command, the events stay queued in order.
    let mut wire = Vec::new();
    wire.extend_from_slice(b"Event-Name: FIRST\n\n");
    wire.extend_from_slice(b"Reply-Text: +OK accepted\n\n");
    wire.extend_from_slice(b"Event-Name: SECOND\n\n");
    conn.feed(&wire);

    let reply_raw = conn.pop_reply().expect("reply must be ready");
    assert_eq!(reply_raw.get_header("Reply-Text"), Some("+OK accepted"));

    let first = conn.next_event().expect("first event");
    assert_eq!(first.get_header("Event-Name"), Some("FIRST"));
    let second = conn.next_event().expect("second event");
    assert_eq!(second.get_header("Event-Name"), Some("SECOND"));
    assert!(conn.next_event().is_none());
}

#[test]
fn test_reply_without_pending_write_is_dropped() {
    let mut conn = ESLConnInner::new();
    conn.feed(b"Reply-Text: +OK orphan\n\n");
    assert!(conn.pop_reply().is_none());
    assert!(conn.next_event().is_none());
}

#[test]
fn test_stale_header_displaced_by_second_block() {
    let mut conn = ESLConnInner::new();
    // The first block declares a length the codec cannot parse, so no
    // body follows it; the next length-declaring block displaces it and
    // the stale block comes out as a bodiless event.
    conn.feed(b"Event-Name: STALE\nContent-Length: nonsense\n\n");
    assert!(conn.next_event().is_none());
    conn.feed(b"Event-Name: TAKER\nContent-Length: 2\n\nhi");
    let stale = conn.next_event().expect("stale block becomes an event");
    assert_eq!(stale.get_header("Event-Name"), Some("STALE"));
    assert!(stale.get_body().is_none());
    let taken = conn.next_event().expect("second block completes");
    assert_eq!(taken.get_header("Event-Name"), Some("TAKER"));
    assert_eq!(taken.get_body().unwrap().as_slice(), b"hi");
}

#[test]
fn test_body_bytes_pass_through_with_embedded_blank_lines() {
    let mut conn = ESLConnInner::new();
    let body: &[u8] = b"line one\n\nline two\n\n\n";
    let mut wire = format!("Content-Length: {}\n\n", body.len()).into_bytes();
    wire.extend_from_slice(body);
    conn.feed(&wire);
    let event = conn.next_event().expect("one event");
    assert_eq!(event.get_body().unwrap().as_slice(), body);
    assert!(conn.next_event().is_none());
}

#[test]
fn test_zero_length_body_completes_immediately() {
    let mut conn = ESLConnInner::new();
    conn.feed(b"Event-Name: EMPTY\nContent-Length: 0\n\nEvent-Name: NEXT\n\n");
    let empty = conn.next_event().expect("zero-length body event");
    assert_eq!(empty.get_header("Event-Name"), Some("EMPTY"));
    assert_eq!(empty.get_body().unwrap().len(), 0);
    let next = conn.next_event().expect("following event");
    assert_eq!(next.get_header("Event-Name"), Some("NEXT"));
}

#[test]
fn test_chunked_delivery_reassembles() {
    let mut conn = ESLConnInner::new();
    let wire = b"Event-Name: SPLIT\nContent-Length: 5\n\nhello";
    // Arbitrary transport chunking must not change the result.
    for chunk in wire.chunks(3) {
        conn.feed(chunk);
    }
    let event = conn.next_event().expect("one event");
    assert_eq!(event.get_header("Event-Name"), Some("SPLIT"));
    assert_eq!(event.get_body().unwrap().as_slice(), b"hello");
}

#[test]
fn test_reply_try_from_rejects_event_class() {
    let mut conn = ESLConnInner::new();
    conn.feed(b"Event-Name: HEARTBEAT\n\n");
    let raw = conn.next_event().unwrap();
    let err = Reply::try_from(raw).err().expect("event-class is no reply");
    assert!(matches!(err.kind(), ErrorKind::InternalError(_)));
}

#[test]
fn test_reply_is_ok() {
    let mut conn = ESLConnInner::new();
    let _ = conn.start_send(&Command::auth("ClueCon"));
    conn.flush_done();
    conn.feed(b"Content-Type: command/reply\nReply-Text: +OK accepted\n\n");
    let reply = Reply::try_from(conn.pop_reply().unwrap()).unwrap();
    assert!(reply.is_ok());

    let _ = conn.start_send(&Command::api("status"));
    conn.flush_done();
    conn.feed(b"Content-Type: command/reply\nReply-Text: -ERR denied\n\n");
    let reply = Reply::try_from(conn.pop_reply().unwrap()).unwrap();
    assert!(!reply.is_ok());

    let _ = conn.start_send(&Command::api("status"));
    conn.flush_done();
    conn.feed(b"Content-Type: api/response\nContent-Length: 2\n\nUP");
    let reply = Reply::try_from(conn.pop_reply().unwrap()).unwrap();
    assert!(reply.is_ok());
    assert_eq!(reply.get_body().unwrap().as_slice(), b"UP");
}

#[test]
fn test_non_utf8_header_values_are_not_matched() {
    // A reply text that is not valid UTF-8 never counts as success.
    let mut conn = ESLConnInner::new();
    let _ = conn.start_send(&Command::api("status"));
    conn.flush_done();
    conn.feed(b"Content-Type: command/reply\nReply-Text: +OK\xff\n\n");
    let reply = Reply::try_from(conn.pop_reply().unwrap()).unwrap();
    assert!(!reply.is_ok());

    // A content type that is not valid UTF-8 matches no format marker.
    let mut conn = ESLConnInner::new();
    conn.feed(b"Content-Type: text/event-plain\xff\n\n");
    let event = eslrs::Event::from(conn.next_event().unwrap());
    assert!(!event.is_plain_event());
    assert!(!event.is_json());
    assert_eq!(event.get_content_type(), Some("INVALID UTF8"));
}

#[test]
fn test_disconnect_lifecycle() {
    let mut conn = ESLConnInner::new();
    assert!(!conn.is_disconnected());
    let bytes = conn.start_send(&Command::disconnect());
    assert_eq!(bytes.as_slice(), b"exit \r\n\r\n");
    conn.flush_done();
    conn.close();
    assert!(conn.is_disconnected());
    conn.close();
    assert!(conn.is_disconnected());
}

#[test]
fn test_protocol_trace_classification() {
    // A fixed trace: nine command/reply exchanges, three background-job
    // events and one heartbeat, interleaved.
    let mut wire: Vec<u8> = Vec::new();
    for i in 0..9 {
        wire.extend_from_slice(
            format!("Content-Type: command/reply\nReply-Text: +OK job {}\n\n", i).as_bytes(),
        );
        if i % 3 == 0 {
            let body = format!("Event-Name: BACKGROUND_JOB\nJob-Number: {}\n\n+OK done", i);
            wire.extend_from_slice(
                format!("Content-Length: {}\nContent-Type: text/event-plain\n\n", body.len())
                    .as_bytes(),
            );
            wire.extend_from_slice(body.as_bytes());
        }
    }
    wire.extend_from_slice(b"Content-Type: text/event-plain\nEvent-Name: HEARTBEAT\n\n");

    let mut conn = ESLConnInner::new();
    let mut replies = 0;
    let mut rest = wire.as_slice();
    // Drive one exchange at a time, as a caller would: each reply-class
    // frame answers the one in-flight command.
    while replies < 9 {
        let _ = conn.start_send(&Command::api("status"));
        conn.flush_done();
        while !conn.reply_ready() {
            let (chunk, tail) = rest.split_at(1);
            rest = tail;
            conn.feed(chunk);
        }
        let reply = conn.pop_reply().unwrap();
        assert!(reply.is_reply() || reply.is_api_response());
        replies += 1;
    }
    conn.feed(rest);

    let mut events = Vec::new();
    while let Some(e) = conn.next_event() {
        events.push(e);
    }
    assert_eq!(replies, 9);
    assert_eq!(events.len(), 4);
    let heartbeats = events
        .iter()
        .filter(|e| e.get_header("Event-Name") == Some("HEARTBEAT"))
        .count();
    assert_eq!(heartbeats, 1);
    let background = events
        .iter()
        .filter(|e| e.get_header("Content-Type") == Some("text/event-plain") && e.get_body().is_some())
        .count();
    assert_eq!(background, 3);
}
