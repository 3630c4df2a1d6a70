//! The event data model: a multi-valued header map built from raw header
//! lines, the raw event record, and its classification predicates.

use vstd::prelude::*;

use crate::bytesutil::{bytes_as_str, bytes_eq, copy_range, find_byte, find_byte_from,
    trim_ascii, trim_ascii_bytes};
use crate::headers::RawHeaders;

mod ext;
mod format;
mod lazy;
mod reply;

pub use ext::EventExt;
pub use format::json_try_from_raw;
pub use format::plain_event_of;
pub use format::EventFormat;
pub use format::JsonEvent;
pub use format::PlainEvent;
pub use lazy::LazyParseCell;
pub use reply::Reply;

verus! {

use vstd::string::StringSliceAdditionalSpecFns;
use vstd::utf8::valid_utf8;

/// The multimap type that backs the header map is opaque to the verifier;
/// its contents are reasoned about through `multimap_entries` below.
#[verifier::external_type_specification]
#[verifier::external_body]
#[verifier::reject_recursive_types(K)]
#[verifier::reject_recursive_types(V)]
#[verifier::reject_recursive_types(S)]
pub struct ExMultiMap<K, V, S>(multimap::MultiMap<K, V, S>);

/// What a header multimap holds: for each key, the values stored under it,
/// in insertion order.
pub uninterp spec fn multimap_entries(m: multimap::MultiMap<Vec<u8>, Vec<u8>>) -> Map<
    Seq<u8>,
    Seq<Seq<u8>>,
>;

/// Adding one value under a key: appended to the key's value list, which is
/// created at the first insertion.
pub open spec fn insert_value(
    m: Map<Seq<u8>, Seq<Seq<u8>>>,
    k: Seq<u8>,
    v: Seq<u8>,
) -> Map<Seq<u8>, Seq<Seq<u8>>> {
    if m.contains_key(k) {
        m.insert(k, m[k].push(v))
    } else {
        m.insert(k, seq![v])
    }
}

/// The first value stored under a key, if any.
pub open spec fn map_first(m: Map<Seq<u8>, Seq<Seq<u8>>>, k: Seq<u8>) -> Option<Seq<u8>> {
    if m.contains_key(k) && m[k].len() > 0 {
        Some(m[k][0])
    } else {
        None
    }
}

/// The header map a sequence of raw lines denotes: each line is split at
/// its first colon into a key (kept as written) and a value (trimmed of
/// ASCII whitespace); lines without a colon are skipped.
pub open spec fn header_map_of(lines: Seq<Seq<u8>>) -> Map<Seq<u8>, Seq<Seq<u8>>>
    decreases lines.len(),
{
    if lines.len() == 0 {
        Map::empty()
    } else {
        let m = header_map_of(lines.drop_last());
        let l = lines.last();
        match find_byte(l, 0, 58) {
            None => m,
            Some(i) => insert_value(m, l.take(i as int), trim_ascii(l.skip(i + 1 as int))),
        }
    }
}

/// A header map with nothing in it.
pub open spec fn no_entries() -> Map<Seq<u8>, Seq<Seq<u8>>> {
    Map::empty()
}

/// The key a raw header line carries: the bytes before its first colon.
pub open spec fn line_key(l: Seq<u8>) -> Option<Seq<u8>> {
    match find_byte(l, 0, 58) {
        None => None,
        Some(i) => Some(l.take(i as int)),
    }
}

/// The value a raw header line carries: the trimmed bytes after its
/// first colon.
pub open spec fn line_value(l: Seq<u8>) -> Seq<u8> {
    match find_byte(l, 0, 58) {
        None => Seq::empty(),
        Some(i) => trim_ascii(l.skip(i + 1 as int)),
    }
}

/// A key carried by no line is absent from the map the lines build.
pub proof fn lemma_key_absent(lines: Seq<Seq<u8>>, k: Seq<u8>)
    requires
        forall|j: int| 0 <= j < lines.len() ==> line_key(#[trigger] lines[j]) != Some(k),
    ensures
        !header_map_of(lines).contains_key(k),
    decreases lines.len(),
{
    if lines.len() > 0 {
        lemma_key_absent(lines.drop_last(), k);
        assert(lines.last() == lines[lines.len() - 1]);
    }
}

/// Header lookups are case-exact and return the first stored value among
/// possibly repeated header names, preserving insertion order: the first
/// value under a key in the map built from raw lines is the trimmed text
/// of the earliest line carrying exactly that key, however many later
/// lines repeat it.
pub proof fn lemma_first_value(lines: Seq<Seq<u8>>, k: Seq<u8>, i: int)
    requires
        0 <= i < lines.len(),
        line_key(lines[i]) == Some(k),
        forall|j: int| 0 <= j < i ==> line_key(#[trigger] lines[j]) != Some(k),
    ensures
        map_first(header_map_of(lines), k) == Some(line_value(lines[i])),
    decreases lines.len(),
{
    let last = lines.last();
    let prev = lines.drop_last();
    assert(last == lines[lines.len() - 1]);
    if i == lines.len() - 1 {
        lemma_key_absent(prev, k);
        match find_byte(last, 0, 58) {
            None => {
                assert(false);
            },
            Some(c) => {
                assert(last.take(c as int) == k);
            },
        }
    } else {
        assert forall|j: int| 0 <= j < prev.len() && j < i implies line_key(
            #[trigger] prev[j],
        ) != Some(k) by {
            assert(prev[j] == lines[j]);
        }
        assert(prev[i] == lines[i]);
        lemma_first_value(prev, k, i);
        let m = header_map_of(prev);
        match find_byte(last, 0, 58) {
            None => {},
            Some(c) => {
                let lk = last.take(c as int);
                if lk == k {
                    assert(m.contains_key(k) && m[k].len() > 0);
                    assert(insert_value(m, lk, line_value(last))[k][0] == m[k][0]);
                } else {
                    assert(insert_value(m, lk, line_value(last))[k] == m[k]);
                }
            },
        }
    }
}

/// Relies on `multimap::MultiMap::new`: creates an empty multimap.
#[verifier::external_body]
fn mm_new() -> (r: multimap::MultiMap<Vec<u8>, Vec<u8>>)
    ensures
        multimap_entries(r) == no_entries(),
{
    multimap::MultiMap::new()
}

/// Relies on `multimap::MultiMap::insert`: pushes the value onto the vector
/// stored under the key, creating a one-element vector for a new key.
#[verifier::external_body]
fn mm_insert(m: &mut multimap::MultiMap<Vec<u8>, Vec<u8>>, k: Vec<u8>, v: Vec<u8>)
    ensures
        multimap_entries(*final(m)) == insert_value(multimap_entries(*old(m)), k@, v@),
{
    m.insert(k, v);
}

/// Relies on `multimap::MultiMap::get`: returns the first value stored
/// under the key, or nothing when the key is absent or has no values.
#[verifier::external_body]
fn mm_get<'a>(m: &'a multimap::MultiMap<Vec<u8>, Vec<u8>>, k: &[u8]) -> (r: Option<&'a Vec<u8>>)
    ensures
        match r {
            Some(v) => map_first(multimap_entries(*m), k@) == Some(v@),
            None => map_first(multimap_entries(*m), k@) is None,
        },
{
    m.get(k)
}

/// A multi-valued header map: values for one name are kept in insertion
/// order, and lookups return the first stored value.
pub struct HeaderMap {
    map: multimap::MultiMap<Vec<u8>, Vec<u8>>,
}

impl View for HeaderMap {
    type V = Map<Seq<u8>, Seq<Seq<u8>>>;

    closed spec fn view(&self) -> Map<Seq<u8>, Seq<Seq<u8>>> {
        multimap_entries(self.map)
    }
}

impl HeaderMap {
    /// Builds the map from raw header lines, splitting each at its first
    /// colon and trimming ASCII whitespace from the value.
    pub fn new(headers: RawHeaders) -> (r: Self)
        ensures
            r@ == header_map_of(headers@),
    {
        let mut map = mm_new();
        let n = headers.len();
        let mut i: usize = 0;
        proof {
            assert(headers@.take(0) =~= Seq::<Seq<u8>>::empty());
        }
        while i < n
            invariant
                i <= n,
                n == headers@.len(),
                multimap_entries(map) == header_map_of(headers@.take(i as int)),
            decreases n - i,
        {
            let line = headers.line(i);
            proof {
                assert(headers@.take(i + 1).drop_last() =~= headers@.take(i as int));
                assert(headers@.take(i + 1).last() == headers@[i as int]);
            }
            match find_byte_from(line.as_slice(), 0, 58) {
                None => {},
                Some(c) => {
                    let ll = line.len();
                    proof {
                        crate::bytesutil::lemma_find_byte_some(line@, 0, 58);
                        assert(c < ll);
                    }
                    let k = copy_range(line.as_slice(), 0, c);
                    let rest = copy_range(line.as_slice(), c + 1, ll);
                    let v = trim_ascii_bytes(rest.as_slice());
                    proof {
                        assert(k@ =~= line@.take(c as int));
                        assert(rest@ =~= line@.skip(c + 1));
                    }
                    mm_insert(&mut map, k, v);
                },
            }
            i = i + 1;
        }
        proof {
            assert(headers@.take(n as int) =~= headers@);
        }
        HeaderMap { map }
    }

    /// A map with no entries yet.
    pub(crate) fn empty() -> (r: Self)
        ensures
            r@ == no_entries(),
    {
        HeaderMap { map: mm_new() }
    }

    /// Stores one more value under a key, after any already stored there.
    pub(crate) fn insert(&mut self, k: Vec<u8>, v: Vec<u8>)
        ensures
            final(self)@ == insert_value(old(self)@, k@, v@),
    {
        mm_insert(&mut self.map, k, v);
    }

    /// The first stored value for `k`, as raw bytes.
    pub fn get_value(&self, k: &[u8]) -> (r: Option<&Vec<u8>>)
        ensures
            match r {
                Some(v) => map_first(self@, k@) == Some(v@),
                None => map_first(self@, k@) is None,
            },
    {
        mm_get(&self.map, k)
    }

    /// The first stored value for `k` as text; bytes that are not valid
    /// UTF-8 are reported as a fixed marker string.
    pub fn get_header(&self, k: &str) -> (r: Option<&str>)
        ensures
            match map_first(self@, k.spec_bytes()) {
                None => r is None,
                Some(v) => {
                    &&& r is Some
                    &&& valid_utf8(v) ==> r->0.spec_bytes() == v
                    &&& !valid_utf8(v) ==> r->0@ == "INVALID UTF8"@
                },
            },
    {
        match mm_get(&self.map, k.as_bytes()) {
            None => None,
            Some(v) => match bytes_as_str(v) {
                Some(s) => Some(s),
                None => Some("INVALID UTF8"),
            },
        }
    }
}

/// The mathematical content of one raw event: its header map and its
/// optional body bytes.
pub ghost struct EventModel {
    pub headers: Map<Seq<u8>, Seq<Seq<u8>>>,
    pub body: Option<Seq<u8>>,
}

/// A frame answers a command when it carries a reply text header.
pub open spec fn spec_is_reply(e: EventModel) -> bool {
    map_first(e.headers, "Reply-Text".spec_bytes()) is Some
}

/// A frame is an api response when its content type is exactly
/// `api/response`.
pub open spec fn spec_is_api_response(e: EventModel) -> bool {
    map_first(e.headers, "Content-Type".spec_bytes()) == Some("api/response".spec_bytes())
}

/// Reply-class frames answer the in-flight command; everything else is an
/// asynchronous event.
pub open spec fn spec_reply_class(e: EventModel) -> bool {
    spec_is_reply(e) || spec_is_api_response(e)
}

/// The event one reassembled frame denotes: the header map of its lines,
/// with its body bytes when a body chunk was paired with it.
pub open spec fn frame_event(lines: Seq<Seq<u8>>, body: Option<Seq<u8>>) -> EventModel {
    EventModel { headers: header_map_of(lines), body }
}

/// One complete inbound frame: a header map and an optional body.
pub struct RawEvent {
    headers: HeaderMap,
    body: Option<Vec<u8>>,
}

impl View for RawEvent {
    type V = EventModel;

    closed spec fn view(&self) -> EventModel {
        EventModel {
            headers: self.headers@,
            body: match self.body {
                Some(ref b) => Some(b@),
                None => None,
            },
        }
    }
}

impl RawEvent {
    pub fn new(headers: RawHeaders, body: Option<Vec<u8>>) -> (r: Self)
        ensures
            r@ == (EventModel {
                headers: header_map_of(headers@),
                body: match body {
                    Some(b) => Some(b@),
                    None => None,
                },
            }),
    {
        RawEvent { headers: HeaderMap::new(headers), body }
    }

    pub fn get_header(&self, header: &str) -> (r: Option<&str>)
        ensures
            match map_first(self@.headers, header.spec_bytes()) {
                None => r is None,
                Some(v) => {
                    &&& r is Some
                    &&& valid_utf8(v) ==> r->0.spec_bytes() == v
                    &&& !valid_utf8(v) ==> r->0@ == "INVALID UTF8"@
                },
            },
    {
        self.headers.get_header(header)
    }

    /// The first stored value for `k`, as raw bytes.
    pub fn get_value(&self, k: &[u8]) -> (r: Option<&Vec<u8>>)
        ensures
            match r {
                Some(v) => map_first(self@.headers, k@) == Some(v@),
                None => map_first(self@.headers, k@) is None,
            },
    {
        self.headers.get_value(k)
    }

    pub fn get_body(&self) -> (r: Option<&Vec<u8>>)
        ensures
            match r {
                Some(b) => self@.body == Some(b@),
                None => self@.body is None,
            },
    {
        self.body.as_ref()
    }

    pub fn get_content_type(&self) -> (r: Option<&str>)
        ensures
            match map_first(self@.headers, "Content-Type".spec_bytes()) {
                None => r is None,
                Some(v) => {
                    &&& r is Some
                    &&& valid_utf8(v) ==> r->0.spec_bytes() == v
                    &&& !valid_utf8(v) ==> r->0@ == "INVALID UTF8"@
                },
            },
    {
        self.headers.get_header("Content-Type")
    }

    pub fn is_reply(&self) -> (r: bool)
        ensures
            r == spec_is_reply(self@),
    {
        self.headers.get_value("Reply-Text".as_bytes()).is_some()
    }

    pub fn is_api_response(&self) -> (r: bool)
        ensures
            r == spec_is_api_response(self@),
    {
        match self.headers.get_value("Content-Type".as_bytes()) {
            None => false,
            Some(v) => bytes_eq(v.as_slice(), "api/response".as_bytes()),
        }
    }
}

/// An asynchronous notification surfaced by `recv`.
pub struct Event {
    raw: RawEvent,
}

impl View for Event {
    type V = EventModel;

    closed spec fn view(&self) -> EventModel {
        self.raw@
    }
}

impl Event {
    pub fn from(value: RawEvent) -> (r: Event)
        ensures
            r@ == value@,
    {
        Event { raw: value }
    }

    pub fn get_header(&self, header: &str) -> (r: Option<&str>)
        ensures
            match map_first(self@.headers, header.spec_bytes()) {
                None => r is None,
                Some(v) => {
                    &&& r is Some
                    &&& valid_utf8(v) ==> r->0.spec_bytes() == v
                    &&& !valid_utf8(v) ==> r->0@ == "INVALID UTF8"@
                },
            },
    {
        self.raw.get_header(header)
    }

    pub fn get_body(&self) -> (r: Option<&Vec<u8>>)
        ensures
            match r {
                Some(b) => self@.body == Some(b@),
                None => self@.body is None,
            },
    {
        self.raw.get_body()
    }

    pub fn get_content_type(&self) -> (r: Option<&str>)
        ensures
            match map_first(self@.headers, "Content-Type".spec_bytes()) {
                None => r is None,
                Some(v) => {
                    &&& r is Some
                    &&& valid_utf8(v) ==> r->0.spec_bytes() == v
                    &&& !valid_utf8(v) ==> r->0@ == "INVALID UTF8"@
                },
            },
    {
        self.raw.get_content_type()
    }

    /// Whether this event carries plain text content: the content type
    /// is valid UTF-8 and begins with the plain event marker.
    pub fn is_plain_event(&self) -> (r: bool)
        ensures
            r == match map_first(self@.headers, "Content-Type".spec_bytes()) {
                None => false,
                Some(v) => valid_utf8(v) && crate::bytesutil::is_prefix_of(
                    "text/event-plain".spec_bytes(),
                    v,
                ),
            },
    {
        match self.raw.get_value("Content-Type".as_bytes()) {
            None => false,
            Some(v) => match bytes_as_str(v) {
                Some(s) => crate::bytesutil::starts_with_bytes(
                    s.as_bytes(),
                    "text/event-plain".as_bytes(),
                ),
                None => false,
            },
        }
    }

    /// Whether this event carries JSON content: the content type is
    /// valid UTF-8 and begins with the JSON event marker.
    pub fn is_json(&self) -> (r: bool)
        ensures
            r == match map_first(self@.headers, "Content-Type".spec_bytes()) {
                None => false,
                Some(v) => valid_utf8(v) && crate::bytesutil::is_prefix_of(
                    "text/event-json".spec_bytes(),
                    v,
                ),
            },
    {
        match self.raw.get_value("Content-Type".as_bytes()) {
            None => false,
            Some(v) => match bytes_as_str(v) {
                Some(s) => crate::bytesutil::starts_with_bytes(
                    s.as_bytes(),
                    "text/event-json".as_bytes(),
                ),
                None => false,
            },
        }
    }
}

} // verus!
