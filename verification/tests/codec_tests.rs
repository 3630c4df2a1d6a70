use eslrs::codec::{ESLCodec, ESLFrame};
use eslrs::headers::{RawHeaders, MAX_HEADERS};
use eslrs::Command;

#[test]
fn test_encode_decode_round_trip_reproduces_command_text() {
    let mut codec = ESLCodec::new();
    let mut wire = Vec::new();
    codec.encode(&Command::api("status"), &mut wire);
    assert_eq!(wire.as_slice(), b"api status\r\n\r\n");

    codec.feed(&wire);
    match codec.decode() {
        Some(ESLFrame::Header(h)) => {
            assert_eq!(h.len(), 1);
            assert_eq!(h.line(0).as_slice(), b"api status");
        },
        _ => panic!("expected one header frame"),
    }
    assert!(codec.decode().is_none());
}

#[test]
fn test_header_only_blocks_one_frame_each() {
    let mut codec = ESLCodec::new();
    codec.feed(b"Event-Name: A\n\nEvent-Name: B\n\nEvent-Name: C\n\n");
    for name in [b"Event-Name: A", b"Event-Name: B", b"Event-Name: C"] {
        match codec.decode() {
            Some(ESLFrame::Header(h)) => {
                assert_eq!(h.len(), 1);
                assert_eq!(h.line(0).as_slice(), name);
            },
            _ => panic!("expected a header frame"),
        }
    }
    assert!(codec.decode().is_none());
}

#[test]
fn test_declared_length_yields_exact_body_chunk() {
    let mut codec = ESLCodec::new();
    codec.feed(b"Content-Length: 7\n\nab\n\ncd!");
    match codec.decode() {
        Some(ESLFrame::Header(h)) => {
            assert_eq!(h.len(), 1);
        },
        _ => panic!("expected the header frame first"),
    }
    match codec.decode() {
        Some(ESLFrame::Body(b)) => {
            assert_eq!(b.as_slice(), b"ab\n\ncd!");
        },
        _ => panic!("expected the body chunk"),
    }
    assert!(codec.decode().is_none());
}

#[test]
fn test_partial_body_waits_for_more_bytes() {
    let mut codec = ESLCodec::new();
    codec.feed(b"Content-Length: 5\n\nab");
    assert!(matches!(codec.decode(), Some(ESLFrame::Header(_))));
    assert!(codec.decode().is_none());
    codec.feed(b"cde");
    match codec.decode() {
        Some(ESLFrame::Body(b)) => assert_eq!(b.as_slice(), b"abcde"),
        _ => panic!("expected the completed body"),
    }
}

#[test]
fn test_carriage_returns_are_stripped_from_lines() {
    let mut codec = ESLCodec::new();
    codec.feed(b"Reply-Text: +OK\r\n\r\n");
    match codec.decode() {
        Some(ESLFrame::Header(h)) => {
            assert_eq!(h.len(), 1);
            assert_eq!(h.line(0).as_slice(), b"Reply-Text: +OK");
        },
        _ => panic!("expected a header frame"),
    }
}

#[test]
fn test_header_capacity_bound_discards_extra_lines() {
    let mut headers = RawHeaders::new();
    for i in 0..MAX_HEADERS + 5 {
        headers.append(format!("H{}: v", i).into_bytes());
    }
    assert_eq!(headers.len(), MAX_HEADERS);
    assert_eq!(headers.line(MAX_HEADERS - 1).as_slice(), b"H31: v");
}

#[test]
fn test_content_length_parsing() {
    let mut h = RawHeaders::new();
    h.append(b"Content-Length: 41".to_vec());
    assert_eq!(h.get_content_len(), Some(41));

    let mut h = RawHeaders::new();
    h.append(b"Content-Length:   77  ".to_vec());
    assert_eq!(h.get_content_len(), Some(77));

    let mut h = RawHeaders::new();
    h.append(b"Content-Length: +5".to_vec());
    assert_eq!(h.get_content_len(), Some(5));

    let mut h = RawHeaders::new();
    h.append(b"Content-Length: nonsense".to_vec());
    assert_eq!(h.get_content_len(), None);

    let mut h = RawHeaders::new();
    h.append(b"Content-Length 41".to_vec());
    assert_eq!(h.get_content_len(), None);

    let mut h = RawHeaders::new();
    h.append(b"Content-Length: 99999999999999999999999999".to_vec());
    assert_eq!(h.get_content_len(), None);

    let mut h = RawHeaders::new();
    h.append(b"Other: 1".to_vec());
    assert_eq!(h.get_content_len(), None);

    // A length line that is not valid UTF-8 declares nothing.
    let mut h = RawHeaders::new();
    h.append(b"Content-Length\xff: 4".to_vec());
    assert_eq!(h.get_content_len(), None);
}

#[test]
fn test_get_header_matches_by_prefix_in_order() {
    let mut h = RawHeaders::new();
    h.append(b"Alpha: 1".to_vec());
    h.append(b"Beta: 2".to_vec());
    h.append(b"Beta: 3".to_vec());
    assert_eq!(h.get_header(b"Beta").unwrap().as_slice(), b"Beta: 2");
    assert_eq!(h.get_header(b"Alpha: 1").unwrap().as_slice(), b"Alpha: 1");
    assert!(h.get_header(b"Gamma").is_none());
}
