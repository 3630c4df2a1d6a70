//! The answer to a submitted command: constructible only from a
//! reply-class frame.

use vstd::prelude::*;

use crate::bytesutil::{bytes_eq, is_prefix_of, starts_with_bytes};
use crate::error::{ESLError, ErrorKind};
use crate::event::{map_first, spec_reply_class, EventModel, RawEvent};

verus! {

use vstd::string::StringSliceAdditionalSpecFns;
use vstd::utf8::valid_utf8;

/// The reply to the most recently submitted command.
pub struct Reply {
    raw: RawEvent,
}

impl View for Reply {
    type V = EventModel;

    closed spec fn view(&self) -> EventModel {
        self.raw@
    }
}

impl Reply {
    /// Wraps a reply-class frame; an event-class frame is a contract
    /// violation inside the engine and is reported as an internal error.
    pub fn try_from(value: RawEvent) -> (r: Result<Reply, ESLError>)
        ensures
            spec_reply_class(value@) ==> r is Ok && r->Ok_0@ == value@,
            !spec_reply_class(value@) ==> r is Err && r->Err_0@.kind is InternalError,
    {
        if value.is_reply() || value.is_api_response() {
            Ok(Reply { raw: value })
        } else {
            Err(ESLError::new(ErrorKind::InternalError("Invalid Reply Cast")))
        }
    }

    pub fn get_header(&self, header: &str) -> (r: Option<&str>)
        ensures
            match map_first(self@.headers, header.spec_bytes()) {
                None => r is None,
                Some(v) => {
                    &&& r is Some
                    &&& valid_utf8(v) ==> r->0.spec_bytes() == v
                    &&& !valid_utf8(v) ==> r->0@ == "INVALID UTF8"@
                },
            },
    {
        self.raw.get_header(header)
    }

    pub fn get_body(&self) -> (r: Option<&Vec<u8>>)
        ensures
            match r {
                Some(b) => self@.body == Some(b@),
                None => self@.body is None,
            },
    {
        self.raw.get_body()
    }

    pub fn get_content_type(&self) -> (r: Option<&str>)
        ensures
            match map_first(self@.headers, "Content-Type".spec_bytes()) {
                None => r is None,
                Some(v) => {
                    &&& r is Some
                    &&& valid_utf8(v) ==> r->0.spec_bytes() == v
                    &&& !valid_utf8(v) ==> r->0@ == "INVALID UTF8"@
                },
            },
    {
        self.raw.get_content_type()
    }

    /// Whether the command succeeded: a command reply whose reply text
    /// is valid UTF-8 and starts with `+OK`, or any api response.
    pub fn is_ok(&self) -> (r: bool)
        ensures
            r == ({
                if map_first(self@.headers, "Content-Type".spec_bytes()) == Some(
                    "command/reply".spec_bytes(),
                ) {
                    match map_first(self@.headers, "Reply-Text".spec_bytes()) {
                        Some(v) => valid_utf8(v) && is_prefix_of("+OK".spec_bytes(), v),
                        None => false,
                    }
                } else {
                    map_first(self@.headers, "Content-Type".spec_bytes()) == Some(
                        "api/response".spec_bytes(),
                    )
                }
            }),
    {
        let ct = self.raw.get_value("Content-Type".as_bytes());
        match ct {
            Some(v) => {
                if bytes_eq(v.as_slice(), "command/reply".as_bytes()) {
                    match self.raw.get_value("Reply-Text".as_bytes()) {
                        Some(t) => match crate::bytesutil::bytes_as_str(t) {
                            Some(s) => starts_with_bytes(s.as_bytes(), "+OK".as_bytes()),
                            None => false,
                        },
                        None => false,
                    }
                } else {
                    bytes_eq(v.as_slice(), "api/response".as_bytes())
                }
            },
            None => false,
        }
    }
}

} // verus!
