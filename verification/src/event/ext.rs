//! Shared header-reading behaviour for typed events: any type that can
//! look up a header value gets the classification predicates for free,
//! each proved against the lookup's contract.

use vstd::prelude::*;

use crate::bytesutil::{bytes_eq, is_prefix_of, starts_with_bytes};
use crate::event::{map_first, EventModel, PlainEvent};

verus! {

use vstd::string::StringSliceAdditionalSpecFns;
use vstd::utf8::valid_utf8;

/// Header access and classification for typed events. `model` ties the
/// implementing type to the event it stands for; `get_header` must obey
/// that model, and everything else follows from it.
pub trait EventExt {
    /// The event this value gives a view of.
    spec fn model(&self) -> EventModel;

    /// The first stored value for a header name, as text; bytes that are
    /// not valid UTF-8 are reported as a fixed marker string.
    fn get_header(&self, header: &str) -> (r: Option<&str>)
        ensures
            match map_first(self.model().headers, header.spec_bytes()) {
                None => r is None,
                Some(v) => {
                    &&& r is Some
                    &&& valid_utf8(v) ==> r->0.spec_bytes() == v
                    &&& !valid_utf8(v) ==> r->0@ == "INVALID UTF8"@
                },
            },
    ;

    /// The content type header's first value.
    fn get_content_type(&self) -> (r: Option<&str>)
        ensures
            match map_first(self.model().headers, "Content-Type".spec_bytes()) {
                None => r is None,
                Some(v) => {
                    &&& r is Some
                    &&& valid_utf8(v) ==> r->0.spec_bytes() == v
                    &&& !valid_utf8(v) ==> r->0@ == "INVALID UTF8"@
                },
            },
    {
        self.get_header("Content-Type")
    }

    /// Whether this is a command reply: a reply text header is present.
    fn is_reply(&self) -> (r: bool)
        ensures
            r == (map_first(self.model().headers, "Reply-Text".spec_bytes()) is Some),
    {
        self.get_header("Reply-Text").is_some()
    }

    /// Whether this is an api response: the content type is exactly
    /// `api/response`.
    fn is_api_response(&self) -> (r: bool)
        ensures
            r == (map_first(self.model().headers, "Content-Type".spec_bytes()) == Some(
                "api/response".spec_bytes(),
            )),
    {
        match self.get_content_type() {
            None => false,
            Some(s) => {
                let eq = bytes_eq(s.as_bytes(), "api/response".as_bytes());
                proof {
                    let stored = map_first(self.model().headers, "Content-Type".spec_bytes());
                    let kb = "api/response".spec_bytes();
                    reveal_strlit("api/response");
                    if !valid_utf8(stored->0) {
                        vstd::utf8::encode_utf8_valid_utf8("api/response"@);
                        lemma_marker_mismatch("api/response");
                        if s.spec_bytes() == kb {
                            assert("INVALID UTF8".spec_bytes().subrange(0, kb.len() as int)
                                =~= kb);
                        }
                    }
                }
                eq
            },
        }
    }

    /// Whether this event carries JSON content.
    fn is_json(&self) -> (r: bool)
        ensures
            r == match map_first(self.model().headers, "Content-Type".spec_bytes()) {
                None => false,
                Some(v) => valid_utf8(v) && is_prefix_of("text/event-json".spec_bytes(), v),
            },
    {
        match self.get_content_type() {
            None => false,
            Some(s) => {
                let r = starts_with_bytes(s.as_bytes(), "text/event-json".as_bytes());
                proof {
                    let stored = map_first(self.model().headers, "Content-Type".spec_bytes());
                    if !valid_utf8(stored->0) {
                        reveal_strlit("text/event-json");
                        lemma_marker_mismatch("text/event-json");
                    }
                }
                r
            },
        }
    }

    /// Whether this event carries plain text content.
    fn is_plain_data(&self) -> (r: bool)
        ensures
            r == match map_first(self.model().headers, "Content-Type".spec_bytes()) {
                None => false,
                Some(v) => valid_utf8(v) && is_prefix_of("text/event-plain".spec_bytes(), v),
            },
    {
        match self.get_content_type() {
            None => false,
            Some(s) => {
                let r = starts_with_bytes(s.as_bytes(), "text/event-plain".as_bytes());
                proof {
                    let stored = map_first(self.model().headers, "Content-Type".spec_bytes());
                    if !valid_utf8(stored->0) {
                        reveal_strlit("text/event-plain");
                        lemma_marker_mismatch("text/event-plain");
                    }
                }
                r
            },
        }
    }
}

/// The invalid-text marker starts with an `I`; no content-type text
/// checked here does, so the marker never passes a prefix test against
/// one.
proof fn lemma_marker_mismatch(key: &str)
    requires
        vstd::utf8::is_ascii_chars(key@),
        key@.len() > 0,
        key@[0] == 't' || key@[0] == 'a',
    ensures
        !is_prefix_of(key.spec_bytes(), "INVALID UTF8".spec_bytes()),
{
    reveal_strlit("INVALID UTF8");
    assert("INVALID UTF8"@[0] == 'I');
    assert(vstd::utf8::is_ascii_chars("INVALID UTF8"@));
    vstd::utf8::is_ascii_chars_encode_utf8(key@);
    vstd::utf8::is_ascii_chars_encode_utf8("INVALID UTF8"@);
    let kb = key.spec_bytes();
    let mb = "INVALID UTF8".spec_bytes();
    assert(mb[0] == 'I' as u8);
    assert(kb[0] == key@[0] as u8);
    if is_prefix_of(kb, mb) {
        assert(mb.subrange(0, kb.len() as int)[0] == mb[0]);
    }
}

impl EventExt for PlainEvent {
    open spec fn model(&self) -> EventModel {
        self@
    }

    fn get_header(&self, header: &str) -> (r: Option<&str>) {
        PlainEvent::get_header(self, header)
    }
}

} // verus!
