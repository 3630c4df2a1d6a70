//! Typed interpretations of an event body: plain key/value text, parsed
//! and verified here, and JSON, parsed by an outside crate.

use vstd::prelude::*;

use crate::bytesutil::{copy_range, find_byte, find_byte_from, trim_ascii, trim_ascii_bytes};
use crate::error::ESLError;
use crate::event::{insert_value, map_first, EventModel, HeaderMap};

verus! {

use vstd::string::StringSliceAdditionalSpecFns;
use vstd::utf8::valid_utf8;

/// A typed event body format: how raw body bytes become a value.
pub trait EventFormat: Sized {
    type FormatError;

    fn try_from_raw(data: &Vec<u8>) -> Result<Self, Self::FormatError>;
}

/// One step of scanning plain event text: from `last`, each line up to a
/// line feed is split at its first colon into a trimmed key and value;
/// an empty line, a missing terminator on the final line, or the end of
/// the data stops the scan. Returns the accumulated entries and the
/// position where the body starts.
pub open spec fn plain_scan(
    data: Seq<u8>,
    last: nat,
    m: Map<Seq<u8>, Seq<Seq<u8>>>,
) -> (Map<Seq<u8>, Seq<Seq<u8>>>, nat)
    decreases data.len() - last,
        via plain_scan_decreases
{
    if last >= data.len() {
        (m, last)
    } else {
        match find_byte(data, last, 10) {
            None => (m, last),
            Some(n) => {
                if n == last {
                    (m, n + 1)
                } else {
                    let line = data.subrange(last as int, n as int);
                    let m2 = match find_byte(line, 0, 58) {
                        None => m,
                        Some(i) => insert_value(
                            m,
                            trim_ascii(line.take(i as int)),
                            trim_ascii(line.skip(i + 1 as int)),
                        ),
                    };
                    if data.len() > n + 1 {
                        plain_scan(data, n + 1, m2)
                    } else {
                        (m2, last)
                    }
                }
            },
        }
    }
}

#[via_fn]
proof fn plain_scan_decreases(data: Seq<u8>, last: nat, m: Map<Seq<u8>, Seq<Seq<u8>>>) {
    if last < data.len() {
        if find_byte(data, last, 10) is Some {
            crate::bytesutil::lemma_find_byte_some(data, last, 10);
        }
    }
}

/// What plain event text denotes: its header entries, and its body — the
/// bytes after the scanned headers, when any remain.
pub open spec fn plain_event_of(data: Seq<u8>) -> EventModel {
    let scan = plain_scan(data, 0, Map::empty());
    let body = data.skip(scan.1 as int);
    EventModel {
        headers: scan.0,
        body: if body.len() == 0 {
            None
        } else {
            Some(body)
        },
    }
}

/// An event body interpreted as plain `Name: Value` text with an optional
/// trailing body of its own.
pub struct PlainEvent {
    headers: HeaderMap,
    body: Option<Vec<u8>>,
}

impl View for PlainEvent {
    type V = EventModel;

    closed spec fn view(&self) -> EventModel {
        EventModel {
            headers: self.headers@,
            body: match self.body {
                Some(ref b) => Some(b@),
                None => None,
            },
        }
    }
}

impl PlainEvent {
    /// Parses plain event text, exactly as `plain_event_of` says; this
    /// parse has no failure case.
    pub fn try_from_raw(data: &Vec<u8>) -> (r: Result<PlainEvent, ESLError>)
        ensures
            r is Ok,
            r->Ok_0@ == plain_event_of(data@),
    {
        let ghost goal = plain_scan(data@, 0, Map::empty());
        let mut map = HeaderMap::empty();
        let mut last: usize = 0;
        let len = data.len();
        loop
            invariant_except_break
                last <= len,
                len == data@.len(),
                plain_scan(data@, last as nat, map@) == goal,
            ensures
                last <= len,
                len == data@.len(),
                map@ == goal.0,
                last as nat == goal.1,
            decreases len - last,
        {
            if last >= len {
                break;
            }
            match find_byte_from(data.as_slice(), last, 10) {
                None => {
                    break;
                },
                Some(n) => {
                    proof {
                        crate::bytesutil::lemma_find_byte_some(data@, last as nat, 10);
                    }
                    if n == last {
                        last = n + 1;
                        break;
                    }
                    let line = copy_range(data.as_slice(), last, n);
                    let ghost lv = data@.subrange(last as int, n as int);
                    match find_byte_from(line.as_slice(), 0, 58) {
                        None => {},
                        Some(i) => {
                            let ll = line.len();
                            proof {
                                crate::bytesutil::lemma_find_byte_some(line@, 0, 58);
                                assert(i < ll);
                            }
                            let k = trim_ascii_bytes(copy_range(line.as_slice(), 0, i).as_slice());
                            let v = trim_ascii_bytes(
                                copy_range(line.as_slice(), i + 1, ll).as_slice(),
                            );
                            proof {
                                assert(line@.subrange(0, i as int) =~= lv.take(i as int));
                                assert(line@.subrange(i + 1, line@.len() as int) =~= lv.skip(
                                    i + 1 as int,
                                ));
                            }
                            map.insert(k, v);
                        },
                    }
                    if len > n + 1 {
                        last = n + 1;
                    } else {
                        break;
                    }
                },
            }
        }
        let body = copy_range(data.as_slice(), last, data.len());
        proof {
            assert(body@ =~= data@.skip(last as int));
        }
        let body_opt = if body.len() == 0 {
            None
        } else {
            Some(body)
        };
        Ok(PlainEvent { headers: map, body: body_opt })
    }

    pub fn get_body(&self) -> (r: Option<&Vec<u8>>)
        ensures
            match r {
                Some(b) => self@.body == Some(b@),
                None => self@.body is None,
            },
    {
        self.body.as_ref()
    }

    pub fn get_header(&self, header: &str) -> (r: Option<&str>)
        ensures
            match map_first(self@.headers, header.spec_bytes()) {
                None => r is None,
                Some(v) => {
                    &&& r is Some
                    &&& valid_utf8(v) ==> r->0.spec_bytes() == v
                    &&& !valid_utf8(v) ==> r->0@ == "INVALID UTF8"@
                },
            },
    {
        self.headers.get_header(header)
    }
}

impl EventFormat for PlainEvent {
    type FormatError = ESLError;

    fn try_from_raw(data: &Vec<u8>) -> (r: Result<PlainEvent, ESLError>)
        ensures
            r is Ok,
            r->Ok_0@ == plain_event_of(data@),
    {
        PlainEvent::try_from_raw(data)
    }
}

/// An event body interpreted as JSON, parsed by the `serde_json` crate.
pub type JsonEvent = serde_json::Value;

/// The JSON value type of the outside crate, opaque to the verifier.
#[verifier::external_type_specification]
#[verifier::external_body]
pub struct ExValue(serde_json::Value);

/// The JSON error type of the outside crate, opaque to the verifier.
#[verifier::external_type_specification]
#[verifier::external_body]
pub struct ExJsonError(serde_json::Error);

/// Relies on `serde_json::from_slice`: parses the bytes as a JSON value,
/// or reports why they are not one. Nothing about the parsed value is
/// assumed here.
#[verifier::external_body]
pub fn json_try_from_raw(data: &Vec<u8>) -> Result<serde_json::Value, serde_json::Error> {
    serde_json::from_slice(data.as_slice())
}

impl EventFormat for serde_json::Value {
    type FormatError = serde_json::Error;

    fn try_from_raw(data: &Vec<u8>) -> Result<serde_json::Value, serde_json::Error> {
        json_try_from_raw(data)
    }
}

} // verus!
