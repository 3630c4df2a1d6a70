//! The raw header set of one wire frame: an ordered, capacity-bounded list
//! of header lines, with prefix lookup and the declared body length.

use vstd::prelude::*;

use crate::bytesutil::{
    find_byte, find_byte_from, is_prefix_of, parse_usize_bytes, parse_usize_spec,
    starts_with_bytes, trim_ascii, trim_ascii_bytes,
};

verus! {

use vstd::string::StringSliceAdditionalSpecFns;

/// Header lines beyond this count are silently discarded.
pub const MAX_HEADERS: usize = 32;

/// The byte form of the header name that declares a body length.
pub open spec fn content_length_key() -> Seq<u8> {
    "Content-Length".spec_bytes()
}

/// Appending a line to a header set: kept only below the capacity bound.
pub open spec fn headers_append(hs: Seq<Seq<u8>>, l: Seq<u8>) -> Seq<Seq<u8>> {
    if hs.len() < MAX_HEADERS {
        hs.push(l)
    } else {
        hs
    }
}

/// The first stored line whose bytes begin with `key`.
pub open spec fn spec_get_header(lines: Seq<Seq<u8>>, key: Seq<u8>) -> Option<Seq<u8>>
    decreases lines.len(),
{
    if lines.len() == 0 {
        None
    } else if is_prefix_of(key, lines[0]) {
        Some(lines[0])
    } else {
        spec_get_header(lines.drop_first(), key)
    }
}

/// A key that prefixes no stored line is not found.
pub proof fn lemma_no_prefix_no_header(lines: Seq<Seq<u8>>, key: Seq<u8>)
    requires
        forall|i: int| 0 <= i < lines.len() ==> !is_prefix_of(key, #[trigger] lines[i]),
    ensures
        spec_get_header(lines, key) is None,
    decreases lines.len(),
{
    if lines.len() > 0 {
        assert forall|i: int| 0 <= i < lines.drop_first().len() implies !is_prefix_of(
            key,
            #[trigger] lines.drop_first()[i],
        ) by {
            assert(lines.drop_first()[i] == lines[i + 1]);
        }
        lemma_no_prefix_no_header(lines.drop_first(), key);
    }
}

/// Whether a body length is declared: a line prefixed by the length header
/// name is present.
pub open spec fn has_content_length(lines: Seq<Seq<u8>>) -> bool {
    spec_get_header(lines, content_length_key()) is Some
}

/// The declared body length: when the first length-prefixed line is
/// valid UTF-8, the text after its first colon, trimmed, read as an
/// unsigned decimal. A line that is not valid UTF-8 declares nothing.
/// The trim removes ASCII whitespace: a declared length is decimal
/// digits, so nothing else ever borders it.
pub open spec fn spec_content_len(lines: Seq<Seq<u8>>) -> Option<int> {
    match spec_get_header(lines, content_length_key()) {
        None => None,
        Some(l) => if !vstd::utf8::valid_utf8(l) {
            None
        } else {
            match find_byte(l, 0, 58) {
                None => None,
                Some(i) => parse_usize_spec(trim_ascii(l.skip(i + 1 as int))),
            }
        },
    }
}

/// An ordered sequence of raw header lines, bounded to `MAX_HEADERS`
/// entries; lines beyond the bound are silently discarded.
pub struct RawHeaders {
    lines: Vec<Vec<u8>>,
}

impl View for RawHeaders {
    type V = Seq<Seq<u8>>;

    closed spec fn view(&self) -> Seq<Seq<u8>> {
        Seq::new(self.lines@.len(), |i: int| self.lines@[i]@)
    }
}

impl RawHeaders {
    pub fn new() -> (r: Self)
        ensures
            r@ =~= Seq::<Seq<u8>>::empty(),
    {
        RawHeaders { lines: Vec::new() }
    }

    /// Stores one more line, unless the capacity bound is reached.
    pub fn append(&mut self, line: Vec<u8>)
        ensures
            final(self)@ =~= headers_append(old(self)@, line@),
    {
        if self.lines.len() < MAX_HEADERS {
            self.lines.push(line);
        }
    }

    pub fn len(&self) -> (r: usize)
        ensures
            r == self@.len(),
    {
        self.lines.len()
    }

    pub fn line(&self, i: usize) -> (r: &Vec<u8>)
        requires
            i < self@.len(),
        ensures
            r@ == self@[i as int],
    {
        &self.lines[i]
    }

    /// The first stored line that begins with `key`.
    pub fn get_header(&self, key: &[u8]) -> (r: Option<&Vec<u8>>)
        ensures
            match r {
                Some(l) => spec_get_header(self@, key@) == Some(l@),
                None => spec_get_header(self@, key@) is None,
            },
    {
        proof {
            assert(self@.subrange(0, self@.len() as int) =~= self@);
        }
        let mut i: usize = 0;
        while i < self.lines.len()
            invariant
                i <= self.lines@.len(),
                spec_get_header(self@, key@) == spec_get_header(
                    self@.subrange(i as int, self@.len() as int),
                    key@,
                ),
        decreases self.lines@.len() - i,
        {
            proof {
                let rest = self@.subrange(i as int, self@.len() as int);
                assert(rest[0] == self@[i as int]);
                assert(rest.drop_first() =~= self@.subrange(i + 1, self@.len() as int));
            }
            if starts_with_bytes(self.lines[i].as_slice(), key) {
                return Some(&self.lines[i]);
            }
            i = i + 1;
        }
        proof {
            assert(self@.subrange(i as int, self@.len() as int) =~= Seq::<Seq<u8>>::empty());
        }
        None
    }

    /// The declared body length, when one is present and well formed.
    pub fn get_content_len(&self) -> (r: Option<usize>)
        ensures
            match r {
                Some(n) => spec_content_len(self@) == Some(n as int),
                None => spec_content_len(self@) is None,
            },
    {
        let key = "Content-Length".as_bytes();
        let line = match self.get_header(key) {
            None => {
                return None;
            },
            Some(l) => l,
        };
        if crate::bytesutil::bytes_as_str(line).is_none() {
            return None;
        }
        let colon = match find_byte_from(line.as_slice(), 0, 58) {
            None => {
                return None;
            },
            Some(i) => i,
        };
        let n = line.len();
        proof {
            crate::bytesutil::lemma_find_byte_some(line@, 0, 58);
            assert(colon < n);
        }
        let value = trim_ascii_bytes(
            copy_tail(line.as_slice(), colon + 1).as_slice(),
        );
        parse_usize_bytes(value.as_slice())
    }
}

/// A copy of `v[from..]`.
fn copy_tail(v: &[u8], from: usize) -> (r: Vec<u8>)
    requires
        from <= v@.len(),
    ensures
        r@ == v@.skip(from as int),
{
    let r = crate::bytesutil::copy_range(v, from, v.len());
    proof {
        assert(v@.subrange(from as int, v@.len() as int) =~= v@.skip(from as int));
    }
    r
}

} // verus!
