//! The wire codec: a stateful incremental decoder that turns a raw byte
//! stream into header-block and body-chunk frames, and a stateless encoder
//! that turns an outgoing command into wire bytes.
//!
//! The decoder scans only the unscanned suffix of its buffer for a line
//! terminator, accumulates header lines (a trailing carriage return is
//! dropped, and lines beyond the capacity bound are discarded), emits the
//! accumulated block at an empty line, and, when the block declares a body
//! length, consumes exactly that many following bytes as one body chunk.

use vstd::prelude::*;

use crate::bytesutil::{find_byte, find_byte_from, copy_range, lemma_find_byte_some};
use crate::command::{Command, CommandModel};
use crate::headers::{headers_append, spec_content_len, RawHeaders};

verus! {

use vstd::utf8::encode_utf8;

/// One decoded frame: a complete header block, or one body chunk.
pub enum ESLFrame {
    Header(RawHeaders),
    Body(Vec<u8>),
}

/// The mathematical content of a frame.
pub ghost enum FrameModel {
    Header(Seq<Seq<u8>>),
    Body(Seq<u8>),
}

impl View for ESLFrame {
    type V = FrameModel;

    open spec fn view(&self) -> FrameModel {
        match self {
            ESLFrame::Header(h) => FrameModel::Header(h@),
            ESLFrame::Body(b) => FrameModel::Body(b@),
        }
    }
}

/// The decoder's abstract state: the header lines accumulated so far, how
/// far the buffer was already scanned for a newline, the declared body
/// length when a body is awaited, and the unconsumed buffer.
pub ghost struct CodecModel {
    pub lines: Seq<Seq<u8>>,
    pub scanned: nat,
    pub body_len: Option<nat>,
    pub buf: Seq<u8>,
}

impl CodecModel {
    /// The state of a freshly created codec.
    pub open spec fn initial() -> CodecModel {
        CodecModel { lines: Seq::empty(), scanned: 0, body_len: None, buf: Seq::empty() }
    }
}

/// A line with a single trailing carriage return removed: the wire format
/// terminates lines with a line feed, and an optional carriage return
/// before it is not part of the line.
pub open spec fn strip_cr(l: Seq<u8>) -> Seq<u8> {
    if l.len() > 0 && l.last() == 13 {
        l.drop_last()
    } else {
        l
    }
}

/// What one decode call yields: the successor state and at most one frame.
pub ghost struct DecodeOut {
    pub next: CodecModel,
    pub frame: Option<FrameModel>,
}

/// The decoder's transition function: consumes buffered lines until a
/// frame is complete or more bytes are needed, producing at most one
/// frame.
pub open spec fn spec_decode(c: CodecModel) -> DecodeOut
    decreases c.buf.len(),
        via spec_decode_decreases
{
    match c.body_len {
        Some(k) => {
            if c.buf.len() < k {
                DecodeOut { next: c, frame: None }
            } else {
                DecodeOut {
                    next: CodecModel {
                        lines: Seq::empty(),
                        scanned: 0,
                        body_len: None,
                        buf: c.buf.skip(k as int),
                    },
                    frame: Some(FrameModel::Body(c.buf.take(k as int))),
                }
            }
        },
        None => match find_byte(c.buf, c.scanned, 10) {
            None => DecodeOut {
                next: CodecModel {
                    lines: c.lines,
                    scanned: c.buf.len(),
                    body_len: None,
                    buf: c.buf,
                },
                frame: None,
            },
            Some(n) => {
                let line = strip_cr(c.buf.take(n as int));
                let rest = c.buf.skip(n + 1 as int);
                if line.len() == 0 {
                    DecodeOut {
                        next: CodecModel {
                            lines: Seq::empty(),
                            scanned: 0,
                            body_len: match spec_content_len(c.lines) {
                                Some(k) => Some(k as nat),
                                None => None,
                            },
                            buf: rest,
                        },
                        frame: Some(FrameModel::Header(c.lines)),
                    }
                } else {
                    spec_decode(
                        CodecModel {
                            lines: headers_append(c.lines, line),
                            scanned: 0,
                            body_len: None,
                            buf: rest,
                        },
                    )
                }
            },
        },
    }
}

#[via_fn]
proof fn spec_decode_decreases(c: CodecModel) {
    if c.body_len is None {
        if find_byte(c.buf, c.scanned, 10) is Some {
            lemma_find_byte_some(c.buf, c.scanned, 10);
        }
    }
}

/// The bytes that terminate an outgoing command.
pub open spec fn end_marker() -> Seq<u8> {
    seq![13u8, 10u8, 13u8, 10u8]
}

/// The wire bytes of one outgoing command: verb, argument text, and the
/// blank-line terminator.
pub open spec fn encoded_command(c: CommandModel) -> Seq<u8> {
    encode_utf8(c.cmd) + encode_utf8(c.args) + end_marker()
}

/// The decoder state with more received bytes behind its buffer.
pub open spec fn with_more(c: CodecModel, d: Seq<u8>) -> CodecModel {
    CodecModel { buf: c.buf + d, ..c }
}

/// A frame already complete in the buffer is unchanged by bytes that
/// arrive behind it: decoding commutes with extending the buffer.
pub proof fn lemma_decode_extend(c: CodecModel, d: Seq<u8>)
    requires
        spec_decode(c).frame is Some,
    ensures
        spec_decode(with_more(c, d)) == (DecodeOut {
            next: with_more(spec_decode(c).next, d),
            frame: spec_decode(c).frame,
        }),
    decreases c.buf.len(),
{
    let ce = with_more(c, d);
    match c.body_len {
        Some(k) => {
            assert(k <= c.buf.len());
            assert(ce.buf.take(k as int) =~= c.buf.take(k as int));
            assert(ce.buf.skip(k as int) =~= c.buf.skip(k as int) + d);
        },
        None => {
            let n = crate::bytesutil::find_byte(c.buf, c.scanned, 10)->0;
            crate::bytesutil::lemma_find_byte_some(c.buf, c.scanned, 10);
            crate::bytesutil::lemma_find_byte_extend(c.buf, d, c.scanned, 10);
            assert(ce.buf.take(n as int) =~= c.buf.take(n as int));
            assert(ce.buf.skip(n + 1 as int) =~= c.buf.skip(n + 1 as int) + d);
            let line = strip_cr(c.buf.take(n as int));
            if line.len() != 0 {
                let c2 = CodecModel {
                    lines: headers_append(c.lines, line),
                    scanned: 0,
                    body_len: None,
                    buf: c.buf.skip(n + 1 as int),
                };
                lemma_decode_extend(c2, d);
                assert(with_more(c2, d) == (CodecModel {
                    lines: headers_append(c.lines, line),
                    scanned: 0,
                    body_len: None,
                    buf: ce.buf.skip(n + 1 as int),
                }));
            }
        },
    }
}

/// Producing a frame always leaves the scan offset at the start of the
/// remaining buffer.
pub proof fn lemma_decode_frame_resets_scan(c: CodecModel)
    requires
        spec_decode(c).frame is Some,
    ensures
        spec_decode(c).next.scanned == 0,
    decreases c.buf.len(),
{
    if c.body_len is None {
        match crate::bytesutil::find_byte(c.buf, c.scanned, 10) {
            None => {},
            Some(n) => {
                crate::bytesutil::lemma_find_byte_some(c.buf, c.scanned, 10);
                let line = strip_cr(c.buf.take(n as int));
                if line.len() != 0 {
                    lemma_decode_frame_resets_scan(
                        CodecModel {
                            lines: headers_append(c.lines, line),
                            scanned: 0,
                            body_len: None,
                            buf: c.buf.skip(n + 1 as int),
                        },
                    );
                }
            },
        }
    }
}

/// After the decoder reports that it needs more data, giving it more
/// data resumes exactly where a fresh scan of the whole buffer would
/// be: the remembered scan offset skips nothing.
pub proof fn lemma_decode_resume(c: CodecModel, d: Seq<u8>)
    requires
        spec_decode(c).frame is None,
        c.scanned <= c.buf.len(),
    ensures
        spec_decode(with_more(spec_decode(c).next, d)) == spec_decode(with_more(c, d)),
    decreases c.buf.len(),
{
    match c.body_len {
        Some(k) => {},
        None => {
            match crate::bytesutil::find_byte(c.buf, c.scanned, 10) {
                None => {
                    let next = spec_decode(c).next;
                    let e1 = with_more(next, d);
                    let e2 = with_more(c, d);
                    crate::bytesutil::lemma_find_byte_none(c.buf, c.scanned, 10);
                    assert forall|j: int| c.scanned <= j < c.buf.len() implies e2.buf[j] != 10 by {
                        assert(e2.buf[j] == c.buf[j]);
                    }
                    crate::bytesutil::lemma_find_byte_advance(e2.buf, c.scanned, c.buf.len(), 10);
                    assert(crate::bytesutil::find_byte(e1.buf, e1.scanned, 10)
                        == crate::bytesutil::find_byte(e2.buf, e2.scanned, 10));
                },
                Some(n) => {
                    // The frame is still missing, so this line was taken
                    // in and decoding went on behind it.
                    crate::bytesutil::lemma_find_byte_some(c.buf, c.scanned, 10);
                    crate::bytesutil::lemma_find_byte_extend(c.buf, d, c.scanned, 10);
                    let line = strip_cr(c.buf.take(n as int));
                    assert(line.len() != 0);
                    let c2 = CodecModel {
                        lines: headers_append(c.lines, line),
                        scanned: 0,
                        body_len: None,
                        buf: c.buf.skip(n + 1 as int),
                    };
                    lemma_decode_resume(c2, d);
                    let e2 = with_more(c, d);
                    assert(e2.buf.take(n as int) =~= c.buf.take(n as int));
                    assert(e2.buf.skip(n + 1 as int) =~= c.buf.skip(n + 1 as int) + d);
                    assert(with_more(c2, d) == (CodecModel {
                        lines: headers_append(c.lines, line),
                        scanned: 0,
                        body_len: None,
                        buf: e2.buf.skip(n + 1 as int),
                    }));
                },
            }
        },
    }
}

/// Lines that make up one well-formed header block on the wire: each is
/// nonempty, contains no line feed, and does not end in a carriage
/// return.
pub open spec fn wf_block_lines(ls: Seq<Seq<u8>>) -> bool {
    forall|i: int|
        0 <= i < ls.len() ==> {
            &&& (#[trigger] ls[i]).len() > 0
            &&& ls[i].last() != 13
            &&& forall|j: int| 0 <= j < ls[i].len() ==> ls[i][j] != 10
        }
}

/// The wire bytes of a run of header lines: each line followed by a line
/// feed.
pub open spec fn line_bytes(ls: Seq<Seq<u8>>) -> Seq<u8>
    decreases ls.len(),
{
    if ls.len() == 0 {
        Seq::empty()
    } else {
        ls[0] + seq![10u8] + line_bytes(ls.drop_first())
    }
}

/// The wire bytes of one complete header block: its lines, then the
/// empty line that terminates the block.
pub open spec fn block_bytes(ls: Seq<Seq<u8>>) -> Seq<u8> {
    line_bytes(ls) + seq![10u8]
}

/// Appending a run of lines to a header set, one at a time, under the
/// capacity bound.
pub open spec fn append_all(acc: Seq<Seq<u8>>, ls: Seq<Seq<u8>>) -> Seq<Seq<u8>>
    decreases ls.len(),
{
    if ls.len() == 0 {
        acc
    } else {
        append_all(headers_append(acc, ls[0]), ls.drop_first())
    }
}

/// Under the capacity bound, appending a run of lines stores all of them.
pub proof fn lemma_append_all_within_bound(acc: Seq<Seq<u8>>, ls: Seq<Seq<u8>>)
    requires
        acc.len() + ls.len() <= crate::headers::MAX_HEADERS,
    ensures
        append_all(acc, ls) =~= acc + ls,
    decreases ls.len(),
{
    if ls.len() == 0 {
    } else {
        lemma_append_all_within_bound(acc.push(ls[0]), ls.drop_first());
        assert(acc.push(ls[0]) + ls.drop_first() =~= acc + ls);
    }
}

/// Decoding one well-formed header block from the front of the buffer
/// yields exactly one header frame holding the accumulated lines, moves
/// to body-awaiting mode exactly when the block declares a length, and
/// leaves the rest of the buffer untouched.
pub proof fn lemma_decode_block(acc: Seq<Seq<u8>>, ls: Seq<Seq<u8>>, rest: Seq<u8>)
    requires
        wf_block_lines(ls),
    ensures
        ({
            let c = CodecModel { lines: acc, scanned: 0, body_len: None, buf: block_bytes(ls) + rest };
            let stored = append_all(acc, ls);
            spec_decode(c) == DecodeOut {
                next: CodecModel {
                    lines: Seq::empty(),
                    scanned: 0,
                    body_len: match spec_content_len(stored) {
                        Some(k) => Some(k as nat),
                        None => None,
                    },
                    buf: rest,
                },
                frame: Some(FrameModel::Header(stored)),
            }
        }),
    decreases ls.len(),
{
    let c = CodecModel { lines: acc, scanned: 0, body_len: None, buf: block_bytes(ls) + rest };
    if ls.len() == 0 {
        assert(c.buf =~= seq![10u8] + rest);
        assert(c.buf[0] == 10);
        crate::bytesutil::lemma_find_byte_at(c.buf, 0, 10, 0);
        assert(c.buf.take(0) =~= Seq::<u8>::empty());
        assert(strip_cr(c.buf.take(0)).len() == 0);
        assert(c.buf.skip(0 + 1 as int) =~= rest);
    } else {
        let l0 = ls[0];
        let dr = ls.drop_first();
        assert(l0.len() > 0 && l0.last() != 13 && forall|j: int| 0 <= j < l0.len() ==> l0[j] != 10);
        assert(c.buf =~= l0 + seq![10u8] + (block_bytes(dr) + rest)) by {
            assert(line_bytes(ls) == l0 + seq![10u8] + line_bytes(dr));
        }
        assert forall|j: int| 0 <= j < l0.len() implies c.buf[j] != 10 by {
            assert(c.buf[j] == l0[j]);
        }
        assert(c.buf[l0.len() as int] == 10);
        crate::bytesutil::lemma_find_byte_at(c.buf, 0, 10, l0.len());
        let line = strip_cr(c.buf.take(l0.len() as int));
        assert(c.buf.take(l0.len() as int) =~= l0);
        assert(line == l0);
        assert(c.buf.skip(l0.len() + 1 as int) =~= block_bytes(dr) + rest);
        assert(wf_block_lines(dr)) by {
            assert forall|i: int|
                0 <= i < dr.len() implies {
                &&& (#[trigger] dr[i]).len() > 0
                &&& dr[i].last() != 13
                &&& forall|j: int| 0 <= j < dr[i].len() ==> dr[i][j] != 10
            } by {
                assert(dr[i] == ls[i + 1]);
            }
        }
        lemma_decode_block(headers_append(acc, l0), dr, rest);
    }
}

/// Encoding characters never manufactures a line feed: every byte of a
/// multi-byte encoding has its high bit set, and a single-byte encoding
/// is the character itself.
proof fn lemma_encode_no_linefeed(chars: Seq<char>)
    requires
        forall|i: int| 0 <= i < chars.len() ==> chars[i] != '\n',
    ensures
        forall|j: int| 0 <= j < encode_utf8(chars).len() ==> encode_utf8(chars)[j] != 10,
        chars.len() > 0 ==> encode_utf8(chars).len() > 0,
    decreases chars.len(),
{
    if chars.len() > 0 {
        let c = chars[0];
        let s = c as u32;
        vstd::utf8::char_is_scalar(c);
        let e = vstd::utf8::encode_scalar(s);
        assert(forall|y: u8| #[trigger] (0x80u8 | y) != 10) by (bit_vector);
        assert(forall|y: u8| #[trigger] (0xC0u8 | y) != 10) by (bit_vector);
        assert(forall|y: u8| #[trigger] (0xE0u8 | y) != 10) by (bit_vector);
        assert(forall|y: u8| #[trigger] (0xF0u8 | y) != 10) by (bit_vector);
        assert forall|j: int| 0 <= j < e.len() implies e[j] != 10 by {
            if vstd::utf8::has_width_1_encoding(s) {
                if e[j] == 10 {
                    assert((s & 0x7F) as u8 == 10 ==> s == 10) by (bit_vector)
                        requires
                            s <= 0x7F,
                    ;
                    vstd::utf8::char_u32_cast(c, s);
                    vstd::utf8::char_u32_cast('\n', 10);
                    assert(c == '\n');
                }
            }
        }
        assert forall|i: int| 0 <= i < chars.drop_first().len() implies chars.drop_first()[i]
            != '\n' by {
            assert(chars.drop_first()[i] == chars[i + 1]);
        }
        lemma_encode_no_linefeed(chars.drop_first());
        assert(encode_utf8(chars) == e + encode_utf8(chars.drop_first()));
        assert forall|j: int| 0 <= j < encode_utf8(chars).len() implies encode_utf8(chars)[j]
            != 10 by {
            if j < e.len() {
                assert(encode_utf8(chars)[j] == e[j]);
            } else {
                assert(encode_utf8(chars)[j] == encode_utf8(chars.drop_first())[j - e.len()]);
            }
        }
    }
}

/// For a command with no body — its text nonempty and free of line
/// feeds — decoding its own encoded bytes yields exactly one header
/// frame whose single line is the verb and argument text, with nothing
/// left in the buffer: the wire format round-trips a command.
pub proof fn lemma_encode_decode_round_trip(c: CommandModel)
    requires
        c.cmd.len() + c.args.len() > 0,
        forall|i: int| 0 <= i < c.cmd.len() ==> c.cmd[i] != '\n',
        forall|i: int| 0 <= i < c.args.len() ==> c.args[i] != '\n',
    ensures
        ({
            let text = encode_utf8(c.cmd) + encode_utf8(c.args);
            let start = CodecModel {
                lines: Seq::empty(),
                scanned: 0,
                body_len: None,
                buf: encoded_command(c),
            };
            &&& spec_decode(start).frame == Some(FrameModel::Header(seq![text]))
            &&& spec_decode(start).next.buf.len() == 0
        }),
{
    lemma_encode_no_linefeed(c.cmd);
    lemma_encode_no_linefeed(c.args);
    let text = encode_utf8(c.cmd) + encode_utf8(c.args);
    let start = CodecModel {
        lines: Seq::empty(),
        scanned: 0,
        body_len: None,
        buf: encoded_command(c),
    };
    assert(text.len() > 0);
    assert forall|j: int| 0 <= j < text.len() implies text[j] != 10 by {
        if j < encode_utf8(c.cmd).len() {
            assert(text[j] == encode_utf8(c.cmd)[j]);
        } else {
            assert(text[j] == encode_utf8(c.args)[j - encode_utf8(c.cmd).len()]);
        }
    }
    // The encoded bytes are the text, a carriage return, a line feed,
    // then the bare block terminator.
    assert(start.buf =~= text + seq![13u8] + seq![10u8] + (seq![13u8, 10u8]));
    assert forall|j: int| 0 <= j < text.len() + 1 implies start.buf[j] != 10 by {
        if j < text.len() {
            assert(start.buf[j] == text[j]);
        } else {
            assert(start.buf[j] == 13);
        }
    }
    assert(start.buf[text.len() + 1 as int] == 10);
    crate::bytesutil::lemma_find_byte_at(start.buf, 0, 10, (text.len() + 1) as nat);
    let raw = start.buf.take(text.len() + 1 as int);
    assert(raw =~= text + seq![13u8]);
    assert(raw.last() == 13);
    assert(raw.drop_last() =~= text);
    assert(strip_cr(raw) == text);
    let mid = CodecModel {
        lines: headers_append(Seq::empty(), text),
        scanned: 0,
        body_len: None,
        buf: start.buf.skip(text.len() + 2 as int),
    };
    assert(spec_decode(start) == spec_decode(mid));
    assert(mid.lines =~= seq![text]);
    assert(mid.buf =~= seq![13u8, 10u8]);
    assert(mid.buf[0] == 13 && mid.buf[1] == 10);
    crate::bytesutil::lemma_find_byte_at(mid.buf, 0, 10, 1);
    let raw2 = mid.buf.take(1);
    assert(raw2 =~= seq![13u8]);
    assert(strip_cr(raw2) =~= Seq::<u8>::empty());
    assert(spec_decode(mid).frame == Some(FrameModel::Header(mid.lines)));
    assert(spec_decode(mid).next.buf =~= Seq::<u8>::empty());
}

/// The stateful incremental wire codec.
pub struct ESLCodec {
    headers: RawHeaders,
    scanned: usize,
    body_len: Option<usize>,
    buf: Vec<u8>,
}

impl View for ESLCodec {
    type V = CodecModel;

    closed spec fn view(&self) -> CodecModel {
        CodecModel {
            lines: self.headers@,
            scanned: self.scanned as nat,
            body_len: match self.body_len {
                Some(k) => Some(k as nat),
                None => None,
            },
            buf: self.buf@,
        }
    }
}

impl ESLCodec {
    /// The scan offset never runs past the buffered bytes.
    pub closed spec fn wf(&self) -> bool {
        self.scanned <= self.buf@.len()
    }

    pub fn new() -> (r: ESLCodec)
        ensures
            r@ == CodecModel::initial(),
            r.wf(),
    {
        let r = ESLCodec { headers: RawHeaders::new(), scanned: 0, body_len: None, buf: Vec::new() };
        proof {
            assert(r@.lines =~= Seq::<Seq<u8>>::empty());
            assert(r@.buf =~= Seq::<u8>::empty());
        }
        r
    }

    /// Makes newly received bytes available to the decoder.
    pub fn feed(&mut self, data: &[u8])
        requires
            old(self).wf(),
        ensures
            final(self).wf(),
            final(self)@ == (CodecModel { buf: old(self)@.buf + data@, ..old(self)@ }),
    {
        crate::bytesutil::extend_bytes(&mut self.buf, data);
    }

    /// Encodes one command onto the end of `dst`: verb bytes, argument
    /// bytes, then the blank-line terminator.
    pub fn encode(&self, item: &Command, dst: &mut Vec<u8>)
        ensures
            final(dst)@ == old(dst)@ + encoded_command(item@),
    {
        crate::bytesutil::extend_bytes(dst, item.verb().as_bytes());
        crate::bytesutil::extend_bytes(dst, item.arg_text().as_bytes());
        dst.push(13);
        dst.push(10);
        dst.push(13);
        dst.push(10);
        proof {
            assert(dst@ =~= old(dst)@ + encoded_command(item@));
        }
    }

    /// Pulls at most one frame out of the buffered bytes, as
    /// `spec_decode` describes; callers pull repeatedly to drain all
    /// complete frames.
    pub fn decode(&mut self) -> (r: Option<ESLFrame>)
        requires
            old(self).wf(),
        ensures
            final(self).wf(),
            final(self)@ == spec_decode(old(self)@).next,
            match r {
                None => spec_decode(old(self)@).frame is None,
                Some(f) => spec_decode(old(self)@).frame == Some(f@),
            },
    {
        loop
            invariant
                self.wf(),
                spec_decode(self@) == spec_decode(old(self)@),
            decreases self@.buf.len(),
        {
            match self.body_len {
                Some(len) => {
                    if self.buf.len() < len {
                        return None;
                    }
                    let body = copy_range(self.buf.as_slice(), 0, len);
                    let tail = copy_range(self.buf.as_slice(), len, self.buf.len());
                    self.buf = tail;
                    self.body_len = None;
                    self.scanned = 0;
                    let mut fresh = RawHeaders::new();
                    core::mem::swap(&mut self.headers, &mut fresh);
                    proof {
                        assert(self@.lines =~= Seq::<Seq<u8>>::empty());
                    }
                    return Some(ESLFrame::Body(body));
                },
                None => {
                    let bl = self.buf.len();
                    match find_byte_from(self.buf.as_slice(), self.scanned, 10) {
                        None => {
                            self.scanned = bl;
                            return None;
                        },
                        Some(n) => {
                            let ghost pre = self@;
                            proof {
                                lemma_find_byte_some(pre.buf, pre.scanned, 10);
                            }
                            let mut line_end = n;
                            if n > 0 && self.buf[n - 1] == 13 {
                                line_end = n - 1;
                            }
                            let line = copy_range(self.buf.as_slice(), 0, line_end);
                            let tail = copy_range(self.buf.as_slice(), n + 1, bl);
                            proof {
                                if n > 0 && pre.buf[n - 1] == 13 {
                                    assert(pre.buf.take(n as int).last() == pre.buf[n - 1]);
                                    assert(pre.buf.take(n as int).drop_last() =~= pre.buf.subrange(
                                        0,
                                        n - 1,
                                    ));
                                } else {
                                    if pre.buf.take(n as int).len() > 0 {
                                        assert(pre.buf.take(n as int).last() == pre.buf[n - 1]);
                                    }
                                }
                                assert(line@ =~= strip_cr(pre.buf.take(n as int)));
                                assert(tail@ =~= pre.buf.skip(n + 1 as int));
                            }
                            self.buf = tail;
                            self.scanned = 0;
                            if line.len() == 0 {
                                let mut complete = RawHeaders::new();
                                core::mem::swap(&mut self.headers, &mut complete);
                                self.body_len = complete.get_content_len();
                                proof {
                                    assert(self@.lines =~= Seq::<Seq<u8>>::empty());
                                    assert(spec_decode(pre).frame == Some(
                                        FrameModel::Header(complete@),
                                    ));
                                    assert(self@ == spec_decode(pre).next);
                                }
                                return Some(ESLFrame::Header(complete));
                            } else {
                                self.headers.append(line);
                                proof {
                                    assert(self@.lines =~= headers_append(
                                        pre.lines,
                                        strip_cr(pre.buf.take(n as int)),
                                    ));
                                    assert(spec_decode(pre) == spec_decode(self@));
                                }
                            }
                        },
                    }
                },
            }
        }
    }
}

} // verus!
