use eslrs::event::PlainEvent;

#[test]
fn test_plain_event_parsing() {
    let raw_data: &[u8] = b"Job-UUID: 7f4db78a-17d7-11dd-b7a0-db4edd065621\n\
Job-Command: originate\n\
Job-Command-Arg: sofia/default/1005%20'%26park'\n\
Event-Name: BACKGROUND_JOB\n\
Core-UUID: 42bdf272-16e6-11dd-b7a0-db4edd065621\n\
FreeSWITCH-Hostname: ser\n\
FreeSWITCH-IPv4: 192.168.1.104\n\
FreeSWITCH-IPv6: 127.0.0.1\n\
Event-Date-Local: 2008-05-02%2007%3A37%3A03\n\
Event-Date-GMT: Thu,%2001%20May%202008%2023%3A37%3A03%20GMT\n\
Event-Date-timestamp: 1209685023894968\n\
Event-Calling-File: mod_event_socket.c\n\
Event-Calling-Function: api_exec\n\
Event-Calling-Line-Number: 609\n\
Content-Length: 41\n\
\n\
+OK 7f4de4bc-17d7-11dd-b7a0-db4edd065621";

    let bytes = raw_data.to_vec();
    let plain_event = PlainEvent::try_from_raw(&bytes).unwrap();

    // Test header parsing
    assert_eq!(
        plain_event.get_header("Job-UUID"),
        Some("7f4db78a-17d7-11dd-b7a0-db4edd065621")
    );
    assert_eq!(plain_event.get_header("Job-Command"), Some("originate"));
    assert_eq!(
        plain_event.get_header("Job-Command-Arg"),
        Some("sofia/default/1005%20'%26park'")
    );
    assert_eq!(plain_event.get_header("Event-Name"), Some("BACKGROUND_JOB"));
    assert_eq!(
        plain_event.get_header("Core-UUID"),
        Some("42bdf272-16e6-11dd-b7a0-db4edd065621")
    );
    assert_eq!(plain_event.get_header("FreeSWITCH-Hostname"), Some("ser"));
    assert_eq!(
        plain_event.get_header("FreeSWITCH-IPv4"),
        Some("192.168.1.104")
    );
    assert_eq!(plain_event.get_header("FreeSWITCH-IPv6"), Some("127.0.0.1"));
    assert_eq!(
        plain_event.get_header("Event-Calling-File"),
        Some("mod_event_socket.c")
    );
    assert_eq!(
        plain_event.get_header("Event-Calling-Function"),
        Some("api_exec")
    );
    assert_eq!(
        plain_event.get_header("Event-Calling-Line-Number"),
        Some("609")
    );
    assert_eq!(plain_event.get_header("Content-Length"), Some("41"));

    // Test body parsing
    let body = plain_event.get_body().expect("should have body");
    assert_eq!(
        body.as_slice(),
        b"+OK 7f4de4bc-17d7-11dd-b7a0-db4edd065621"
    );
}

#[test]
fn test_plain_event_no_body() {
    let raw_data: &[u8] = b"Event-Name: HEARTBEAT\n\
Core-UUID: 42bdf272-16e6-11dd-b7a0-db4edd065621\n\
FreeSWITCH-Hostname: ser\n\
\n";

    let bytes = raw_data.to_vec();
    let plain_event = PlainEvent::try_from_raw(&bytes).unwrap();

    assert_eq!(plain_event.get_header("Event-Name"), Some("HEARTBEAT"));
    assert_eq!(
        plain_event.get_header("Core-UUID"),
        Some("42bdf272-16e6-11dd-b7a0-db4edd065621")
    );
    assert_eq!(plain_event.get_header("FreeSWITCH-Hostname"), Some("ser"));

    // Should have no body
    assert!(plain_event.get_body().is_none());
}

#[test]
fn test_plain_event_missing_header() {
    let raw_data: &[u8] = b"Event-Name: HEARTBEAT\n\
FreeSWITCH-Hostname: ser\n\
\n";

    let bytes = raw_data.to_vec();
    let plain_event = PlainEvent::try_from_raw(&bytes).unwrap();

    assert_eq!(plain_event.get_header("Event-Name"), Some("HEARTBEAT"));
    assert_eq!(plain_event.get_header("NonExistent"), None);
}

#[test]
fn test_plain_event_whitespace_handling() {
    let raw_data: &[u8] = b"Event-Name:    HEARTBEAT\n\
Core-UUID:42bdf272-16e6-11dd-b7a0-db4edd065621\n\
\n";

    let bytes = raw_data.to_vec();
    let plain_event = PlainEvent::try_from_raw(&bytes).unwrap();

    // Should trim whitespace around values
    assert_eq!(plain_event.get_header("Event-Name"), Some("HEARTBEAT"));
    assert_eq!(
        plain_event.get_header("Core-UUID"),
        Some("42bdf272-16e6-11dd-b7a0-db4edd065621")
    );
}

#[test]
fn test_plain_event_repeated_headers_keep_first() {
    let raw_data: &[u8] = b"Name: first\nName: second\nOther: x\n\n";
    let bytes = raw_data.to_vec();
    let plain_event = PlainEvent::try_from_raw(&bytes).unwrap();
    assert_eq!(plain_event.get_header("Name"), Some("first"));
    assert_eq!(plain_event.get_header("Other"), Some("x"));
    // Lookups are case-exact.
    assert_eq!(plain_event.get_header("name"), None);
}
