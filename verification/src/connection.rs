//! The connection engine: the single-in-flight send/receive state machine
//! that demultiplexes one duplex byte stream into exactly one pending
//! command reply and an order-preserving queue of asynchronous events.
//!
//! The engine is transport-free: a caller feeds it the bytes it read and
//! writes out the bytes `start_send` returns. Every decision — framing,
//! reassembly, classification, routing — is made here and verified.

use vstd::prelude::*;

use std::collections::VecDeque;

use crate::codec::{
    spec_decode, CodecModel, ESLCodec, ESLFrame, FrameModel, encoded_command,
};
use crate::command::Command;
use crate::event::{frame_event, spec_reply_class, EventModel, RawEvent};
use crate::headers::{
    content_length_key, has_content_length, lemma_no_prefix_no_header, spec_content_len,
    spec_get_header, RawHeaders,
};

verus! {

/// The lifecycle of the single outstanding command: enqueued, flushed and
/// awaiting its reply, or completed with the reply frame.
pub enum SendRecvState {
    Start,
    Pending,
    Complete(RawEvent),
}

/// The mathematical content of the pending-write slot.
pub ghost enum WriteModel {
    Start,
    Pending,
    Complete(EventModel),
}

impl View for SendRecvState {
    type V = WriteModel;

    closed spec fn view(&self) -> WriteModel {
        match self {
            SendRecvState::Start => WriteModel::Start,
            SendRecvState::Pending => WriteModel::Pending,
            SendRecvState::Complete(e) => WriteModel::Complete(e@),
        }
    }
}

/// The engine's abstract state: the codec, the reassembler's pending
/// header block, the queued event-class frames, the pending-write slot,
/// and whether the stream has ended.
pub ghost struct EngineModel {
    pub codec: CodecModel,
    pub pending: Option<Seq<Seq<u8>>>,
    pub queue: Seq<EventModel>,
    pub write: Option<WriteModel>,
    pub done: bool,
}

impl EngineModel {
    /// The state of a freshly connected engine.
    pub open spec fn initial() -> EngineModel {
        EngineModel {
            codec: CodecModel::initial(),
            pending: None,
            queue: Seq::empty(),
            write: None,
            done: false,
        }
    }
}

/// The model after new transport bytes arrive, before any decoding.
pub open spec fn with_bytes(m: EngineModel, data: Seq<u8>) -> EngineModel {
    EngineModel { codec: CodecModel { buf: m.codec.buf + data, ..m.codec }, ..m }
}

/// Routing one complete event: a reply-class frame completes the pending
/// write (and is dropped when no write is pending — a protocol anomaly,
/// not an error); an event-class frame joins the queue.
pub open spec fn spec_route_event(m: EngineModel, e: EventModel) -> EngineModel {
    if spec_reply_class(e) {
        if m.write is Some {
            EngineModel { write: Some(WriteModel::Complete(e)), ..m }
        } else {
            m
        }
    } else {
        EngineModel { queue: m.queue.push(e), ..m }
    }
}

/// Reassembling one frame into events. A header block without a declared
/// length is emitted at once; one with a declared length is held back for
/// its body, first emitting any displaced stale block as a bodiless
/// event; a body chunk completes the held block (or an empty one).
pub open spec fn spec_route_frame(m: EngineModel, f: FrameModel) -> EngineModel {
    match f {
        FrameModel::Header(lines) => {
            if !has_content_length(lines) {
                spec_route_event(m, frame_event(lines, None))
            } else {
                match m.pending {
                    Some(p) => {
                        let m2 = spec_route_event(m, frame_event(p, None));
                        EngineModel { pending: Some(lines), ..m2 }
                    },
                    None => EngineModel { pending: Some(lines), ..m },
                }
            }
        },
        FrameModel::Body(b) => {
            let lines = match m.pending {
                Some(p) => p,
                None => Seq::empty(),
            };
            spec_route_event(EngineModel { pending: None, ..m }, frame_event(lines, Some(b)))
        },
    }
}

/// The termination measure of draining the buffer: body chunks may be
/// empty, so leaving body-awaiting state counts as progress of its own.
pub open spec fn pump_measure(c: CodecModel) -> int {
    2 * c.buf.len() + (if c.body_len is Some {
        1int
    } else {
        0int
    })
}

/// Decoding one frame always consumes buffered bytes or leaves
/// body-awaiting state.
pub proof fn lemma_decode_progress(c: CodecModel)
    requires
        spec_decode(c).frame is Some,
    ensures
        pump_measure(spec_decode(c).next) < pump_measure(c),
    decreases c.buf.len(),
{
    if c.body_len is None {
        match crate::bytesutil::find_byte(c.buf, c.scanned, 10) {
            None => {},
            Some(n) => {
                crate::bytesutil::lemma_find_byte_some(c.buf, c.scanned, 10);
                let line = crate::codec::strip_cr(c.buf.take(n as int));
                if line.len() != 0 {
                    let c2 = CodecModel {
                        lines: crate::headers::headers_append(c.lines, line),
                        scanned: 0,
                        body_len: None,
                        buf: c.buf.skip(n + 1 as int),
                    };
                    lemma_decode_progress(c2);
                }
            },
        }
    }
}

/// The engine's transition on newly available bytes: decode and route
/// frames until no complete frame remains buffered.
pub open spec fn spec_pump(m: EngineModel) -> EngineModel
    decreases pump_measure(m.codec),
        via spec_pump_decreases
{
    let out = spec_decode(m.codec);
    match out.frame {
        None => EngineModel { codec: out.next, ..m },
        Some(f) => spec_pump(spec_route_frame(EngineModel { codec: out.next, ..m }, f)),
    }
}

#[via_fn]
proof fn spec_pump_decreases(m: EngineModel) {
    if spec_decode(m.codec).frame is Some {
        lemma_decode_progress(m.codec);
        let out = spec_decode(m.codec);
        assert(spec_route_frame(EngineModel { codec: out.next, ..m }, out.frame->0).codec
            == out.next);
    }
}

/// Routing never touches the decoder, so a frame routes the same way
/// whatever the decoder's state is.
pub proof fn lemma_route_frame_codec(m: EngineModel, c: CodecModel, f: FrameModel)
    ensures
        spec_route_frame(EngineModel { codec: c, ..m }, f) == (EngineModel {
            codec: c,
            ..spec_route_frame(m, f)
        }),
{
}

/// Draining what is buffered and then receiving more bytes reaches the
/// same state as receiving everything first: the decoder resumes
/// exactly where it stopped.
pub proof fn lemma_pump_resume(m: EngineModel, d: Seq<u8>)
    requires
        m.codec.scanned <= m.codec.buf.len(),
    ensures
        spec_pump(with_bytes(spec_pump(m), d)) == spec_pump(with_bytes(m, d)),
    decreases pump_measure(m.codec),
{
    let out = spec_decode(m.codec);
    match out.frame {
        None => {
            crate::codec::lemma_decode_resume(m.codec, d);
            let a = with_bytes(EngineModel { codec: out.next, ..m }, d);
            let b = with_bytes(m, d);
            assert(a.codec == crate::codec::with_more(out.next, d));
            assert(b.codec == crate::codec::with_more(m.codec, d));
            let oa = spec_decode(a.codec);
            assert(oa == spec_decode(b.codec));
            match oa.frame {
                None => {
                    assert(spec_pump(a) == (EngineModel { codec: oa.next, ..a }));
                    assert(spec_pump(b) == (EngineModel { codec: oa.next, ..b }));
                    assert((EngineModel { codec: oa.next, ..a }) == (EngineModel {
                        codec: oa.next,
                        ..b
                    }));
                },
                Some(f) => {
                    assert((EngineModel { codec: oa.next, ..a }) == (EngineModel {
                        codec: oa.next,
                        ..b
                    }));
                    assert(spec_pump(a) == spec_pump(
                        spec_route_frame(EngineModel { codec: oa.next, ..a }, f),
                    ));
                    assert(spec_pump(b) == spec_pump(
                        spec_route_frame(EngineModel { codec: oa.next, ..b }, f),
                    ));
                },
            }
        },
        Some(f) => {
            lemma_decode_progress(m.codec);
            let m2 = spec_route_frame(EngineModel { codec: out.next, ..m }, f);
            lemma_route_frame_codec(m, out.next, f);
            assert(m2 == (EngineModel { codec: out.next, ..spec_route_frame(m, f) }));
            crate::codec::lemma_decode_frame_resets_scan(m.codec);
            assert(m2.codec.scanned <= m2.codec.buf.len());
            lemma_pump_resume(m2, d);
            crate::codec::lemma_decode_extend(m.codec, d);
            let b = with_bytes(m, d);
            assert(b.codec == crate::codec::with_more(m.codec, d));
            assert(spec_decode(b.codec) == (crate::codec::DecodeOut {
                next: crate::codec::with_more(out.next, d),
                frame: Some(f),
            }));
            lemma_route_frame_codec(b, crate::codec::with_more(out.next, d), f);
            assert(spec_route_frame(b, f) == (EngineModel { codec: b.codec, ..spec_route_frame(m, f) }));
            assert(spec_route_frame(
                EngineModel { codec: crate::codec::with_more(out.next, d), ..b },
                f,
            ) == (EngineModel {
                codec: crate::codec::with_more(out.next, d),
                ..spec_route_frame(m, f)
            }));
            assert(with_bytes(m2, d) == (EngineModel {
                codec: crate::codec::with_more(out.next, d),
                ..spec_route_frame(m, f)
            }));
            assert(spec_pump(b) == spec_pump(with_bytes(m2, d)));
            assert(spec_pump(m) == spec_pump(m2));
        },
    }
}

/// Arbitrary transport chunking does not matter: feeding two byte runs
/// one after the other leaves the engine exactly where feeding their
/// concatenation at once would.
pub proof fn lemma_feed_chunking(m: EngineModel, a: Seq<u8>, b: Seq<u8>)
    requires
        m.codec.scanned <= m.codec.buf.len(),
    ensures
        spec_pump(with_bytes(spec_pump(with_bytes(m, a)), b)) == spec_pump(with_bytes(m, a + b)),
{
    lemma_pump_resume(with_bytes(m, a), b);
    assert(with_bytes(with_bytes(m, a), b) == with_bytes(m, a + b)) by {
        assert(m.codec.buf + a + b =~= m.codec.buf + (a + b));
    }
}

/// Routing a run of complete events, in order.
pub open spec fn spec_route_events(m: EngineModel, es: Seq<EventModel>) -> EngineModel
    decreases es.len(),
{
    if es.len() == 0 {
        m
    } else {
        spec_route_events(spec_route_event(m, es[0]), es.drop_first())
    }
}

/// Event-class frames only pass the router untouched: they all join the
/// queue, in arrival order, and nothing else changes.
pub proof fn lemma_events_enqueue(m: EngineModel, es: Seq<EventModel>)
    requires
        forall|j: int| 0 <= j < es.len() ==> !spec_reply_class(#[trigger] es[j]),
    ensures
        spec_route_events(m, es) == (EngineModel { queue: m.queue + es, ..m }),
    decreases es.len(),
{
    if es.len() == 0 {
        assert(m.queue + es =~= m.queue);
    } else {
        let m1 = spec_route_event(m, es[0]);
        assert forall|j: int| 0 <= j < es.drop_first().len() implies !spec_reply_class(
            #[trigger] es.drop_first()[j],
        ) by {
            assert(es.drop_first()[j] == es[j + 1]);
        }
        lemma_events_enqueue(m1, es.drop_first());
        assert(m1.queue + es.drop_first() =~= m.queue + es);
    }
}

/// While a command awaits its reply, the single reply-class frame among
/// the observed frames completes the pending write, and every
/// event-class frame joins the queue in its original arrival order —
/// none is lost or reordered.
pub proof fn lemma_reply_routing(m: EngineModel, es: Seq<EventModel>, i: int)
    requires
        m.write == Some(WriteModel::Pending),
        0 <= i < es.len(),
        spec_reply_class(es[i]),
        forall|j: int| 0 <= j < es.len() && j != i ==> !spec_reply_class(#[trigger] es[j]),
    ensures
        spec_route_events(m, es) == (EngineModel {
            write: Some(WriteModel::Complete(es[i])),
            queue: m.queue + es.subrange(0, i) + es.subrange(i + 1, es.len() as int),
            ..m
        }),
    decreases es.len(),
{
    if i == 0 {
        let m1 = spec_route_event(m, es[0]);
        assert(m1 == (EngineModel { write: Some(WriteModel::Complete(es[0])), ..m }));
        assert forall|j: int| 0 <= j < es.drop_first().len() implies !spec_reply_class(
            #[trigger] es.drop_first()[j],
        ) by {
            assert(es.drop_first()[j] == es[j + 1]);
        }
        lemma_events_enqueue(m1, es.drop_first());
        assert(m.queue + es.subrange(0, 0) + es.subrange(1, es.len() as int) =~= m.queue
            + es.drop_first());
    } else {
        let m1 = spec_route_event(m, es[0]);
        assert(!spec_reply_class(es[0]));
        assert(m1 == (EngineModel { queue: m.queue.push(es[0]), ..m }));
        assert forall|j: int|
            0 <= j < es.drop_first().len() && j != i - 1 implies !spec_reply_class(
            #[trigger] es.drop_first()[j],
        ) by {
            assert(es.drop_first()[j] == es[j + 1]);
        }
        assert(es.drop_first()[i - 1] == es[i]);
        lemma_reply_routing(m1, es.drop_first(), i - 1);
        assert(m1.queue + es.drop_first().subrange(0, i - 1) + es.drop_first().subrange(
            i,
            es.drop_first().len() as int,
        ) =~= m.queue + es.subrange(0, i) + es.subrange(i + 1, es.len() as int)) by {
            assert(es.drop_first().subrange(0, i - 1) =~= es.subrange(1, i));
            assert(es.drop_first().subrange(i, es.drop_first().len() as int) =~= es.subrange(
                i + 1,
                es.len() as int,
            ));
        }
    }
}

/// A header block that declares a body length, arriving while an
/// earlier block still awaits its body, displaces it: the stale block
/// is emitted as a bodiless event — queued like any event-class frame,
/// not raised as an error — and the new block takes its place.
pub proof fn lemma_stale_header_displaced(m: EngineModel, lines: Seq<Seq<u8>>)
    requires
        m.pending is Some,
        has_content_length(lines),
    ensures
        spec_route_frame(m, FrameModel::Header(lines)) == (EngineModel {
            pending: Some(lines),
            ..spec_route_event(m, frame_event(m.pending->0, None))
        }),
        !spec_reply_class(frame_event(m.pending->0, None)) ==> spec_route_frame(
            m,
            FrameModel::Header(lines),
        ) == (EngineModel {
            pending: Some(lines),
            queue: m.queue.push(frame_event(m.pending->0, None)),
            ..m
        }),
{
}

/// The wire bytes of a run of complete header blocks.
pub open spec fn blocks_bytes(bs: Seq<Seq<Seq<u8>>>) -> Seq<u8>
    decreases bs.len(),
{
    if bs.len() == 0 {
        Seq::empty()
    } else {
        crate::codec::block_bytes(bs[0]) + blocks_bytes(bs.drop_first())
    }
}

/// Routing a run of events never touches the decoder either.
proof fn lemma_route_events_codec(m: EngineModel, c: CodecModel, es: Seq<EventModel>)
    ensures
        spec_route_events(EngineModel { codec: c, ..m }, es) == (EngineModel {
            codec: c,
            ..spec_route_events(m, es)
        }),
    decreases es.len(),
{
    if es.len() > 0 {
        assert(spec_route_event(EngineModel { codec: c, ..m }, es[0]) == (EngineModel {
            codec: c,
            ..spec_route_event(m, es[0])
        }));
        lemma_route_events_codec(spec_route_event(m, es[0]), c, es.drop_first());
    }
}

/// A stream of concatenated header-only blocks — none declaring a body
/// length, each within the header-count bound — decodes to exactly one
/// bodiless event per block, routed in arrival order, whatever each
/// event's class and whatever command state the engine is in; the
/// decoder ends back in its initial state.
pub proof fn lemma_header_only_stream_routes(m: EngineModel, bs: Seq<Seq<Seq<u8>>>)
    requires
        m.codec == CodecModel::initial(),
        m.pending is None,
        forall|i: int|
            0 <= i < bs.len() ==> {
                &&& crate::codec::wf_block_lines(#[trigger] bs[i])
                &&& bs[i].len() <= crate::headers::MAX_HEADERS
                &&& forall|j: int|
                    0 <= j < bs[i].len() ==> !crate::bytesutil::is_prefix_of(
                        content_length_key(),
                        #[trigger] bs[i][j],
                    )
            },
    ensures
        spec_pump(with_bytes(m, blocks_bytes(bs))) == (EngineModel {
            codec: CodecModel::initial(),
            ..spec_route_events(m, Seq::new(bs.len(), |i: int| frame_event(bs[i], None)))
        }),
    decreases bs.len(),
{
    let evs = Seq::new(bs.len(), |i: int| frame_event(bs[i], None));
    if bs.len() == 0 {
        let m2 = with_bytes(m, blocks_bytes(bs));
        assert(m2.codec.buf =~= Seq::<u8>::empty());
        assert(m2.codec == m.codec);
        assert(m2 == m);
        assert(spec_decode(m.codec).frame is None);
        assert(spec_decode(m.codec).next == m.codec);
        assert(spec_pump(m) == m);
        assert(spec_route_events(m, evs) == m);
        assert((EngineModel { codec: CodecModel::initial(), ..m }) == m);
    } else {
        let b0 = bs[0];
        let dr = bs.drop_first();
        let m2 = with_bytes(m, blocks_bytes(bs));
        assert(m2.codec.buf =~= crate::codec::block_bytes(b0) + blocks_bytes(dr));
        crate::codec::lemma_decode_block(Seq::empty(), b0, blocks_bytes(dr));
        crate::codec::lemma_append_all_within_bound(Seq::empty(), b0);
        lemma_no_prefix_no_header(b0, content_length_key());
        assert(spec_content_len(b0) is None);
        let out = spec_decode(m2.codec);
        assert(out.frame == Some(FrameModel::Header(b0)));
        assert(out.next == (CodecModel {
            lines: Seq::empty(),
            scanned: 0,
            body_len: None,
            buf: blocks_bytes(dr),
        }));
        let e0 = frame_event(b0, None);
        let m3 = spec_route_frame(EngineModel { codec: out.next, ..m2 }, FrameModel::Header(b0));
        assert(m3 == (EngineModel { codec: out.next, ..spec_route_event(m, e0) }));
        assert(spec_pump(m2) == spec_pump(m3));
        let m4 = EngineModel { codec: CodecModel::initial(), ..spec_route_event(m, e0) };
        assert(m4.pending == m.pending);
        assert(m3 == with_bytes(m4, blocks_bytes(dr))) by {
            assert(CodecModel::initial().buf + blocks_bytes(dr) =~= blocks_bytes(dr));
        }
        assert forall|i: int|
            0 <= i < dr.len() implies {
            &&& crate::codec::wf_block_lines(#[trigger] dr[i])
            &&& dr[i].len() <= crate::headers::MAX_HEADERS
            &&& forall|j: int|
                0 <= j < dr[i].len() ==> !crate::bytesutil::is_prefix_of(
                    content_length_key(),
                    #[trigger] dr[i][j],
                )
        } by {
            assert(dr[i] == bs[i + 1]);
        }
        lemma_header_only_stream_routes(m4, dr);
        let evs_dr = Seq::new(dr.len(), |i: int| frame_event(dr[i], None));
        lemma_route_events_codec(spec_route_event(m, e0), CodecModel::initial(), evs_dr);
        assert(evs.drop_first() =~= evs_dr) by {
            assert forall|i: int| 0 <= i < evs_dr.len() implies evs.drop_first()[i] == evs_dr[i] by {
                assert(evs.drop_first()[i] == evs[i + 1]);
                assert(dr[i] == bs[i + 1]);
            }
        }
        assert(evs[0] == e0);
        assert(spec_route_events(m, evs) == spec_route_events(spec_route_event(m, e0), evs_dr));
    }
}

/// A stream of concatenated header-only blocks — none declaring a body
/// length, each within the header-count bound and event-class — decodes
/// to exactly one bodiless event per block, queued in arrival order,
/// and leaves the engine back in its initial decoding state.
pub proof fn lemma_header_only_stream(m: EngineModel, bs: Seq<Seq<Seq<u8>>>)
    requires
        m.codec == CodecModel::initial(),
        m.pending is None,
        forall|i: int|
            0 <= i < bs.len() ==> {
                &&& crate::codec::wf_block_lines(#[trigger] bs[i])
                &&& bs[i].len() <= crate::headers::MAX_HEADERS
                &&& forall|j: int|
                    0 <= j < bs[i].len() ==> !crate::bytesutil::is_prefix_of(
                        content_length_key(),
                        #[trigger] bs[i][j],
                    )
                &&& !spec_reply_class(frame_event(bs[i], None))
            },
    ensures
        spec_pump(with_bytes(m, blocks_bytes(bs))) == (EngineModel {
            queue: m.queue + Seq::new(bs.len(), |i: int| frame_event(bs[i], None)),
            ..m
        }),
{
    let evs = Seq::new(bs.len(), |i: int| frame_event(bs[i], None));
    lemma_header_only_stream_routes(m, bs);
    assert forall|j: int| 0 <= j < evs.len() implies !spec_reply_class(#[trigger] evs[j]) by {
        assert(evs[j] == frame_event(bs[j], None));
    }
    lemma_events_enqueue(m, evs);
}

/// The wire form of waiting for a reply: while a command's reply is
/// pending, decoding a stream of header-only blocks with exactly one
/// reply-class block among them completes the pending write with that
/// block's event, and every event-class block joins the queue in its
/// original order.
pub proof fn lemma_send_recv_stream(m: EngineModel, bs: Seq<Seq<Seq<u8>>>, i: int)
    requires
        m.codec == CodecModel::initial(),
        m.pending is None,
        m.write == Some(WriteModel::Pending),
        0 <= i < bs.len(),
        spec_reply_class(frame_event(bs[i], None)),
        forall|j: int|
            0 <= j < bs.len() && j != i ==> !spec_reply_class(frame_event(#[trigger] bs[j], None)),
        forall|j: int|
            0 <= j < bs.len() ==> {
                &&& crate::codec::wf_block_lines(#[trigger] bs[j])
                &&& bs[j].len() <= crate::headers::MAX_HEADERS
                &&& forall|k: int|
                    0 <= k < bs[j].len() ==> !crate::bytesutil::is_prefix_of(
                        content_length_key(),
                        #[trigger] bs[j][k],
                    )
            },
    ensures
        spec_pump(with_bytes(m, blocks_bytes(bs))) == (EngineModel {
            write: Some(WriteModel::Complete(frame_event(bs[i], None))),
            queue: m.queue + Seq::new(i as nat, |j: int| frame_event(bs[j], None)) + Seq::new(
                (bs.len() - i - 1) as nat,
                |j: int| frame_event(bs[j + i + 1], None),
            ),
            ..m
        }),
{
    let evs = Seq::new(bs.len(), |j: int| frame_event(bs[j], None));
    lemma_header_only_stream_routes(m, bs);
    assert(evs[i] == frame_event(bs[i], None));
    assert forall|j: int|
        0 <= j < evs.len() && j != i implies !spec_reply_class(#[trigger] evs[j]) by {
        assert(evs[j] == frame_event(bs[j], None));
    }
    lemma_reply_routing(m, evs, i);
    assert(evs.subrange(0, i) =~= Seq::new(i as nat, |j: int| frame_event(bs[j], None))) by {
        assert forall|k: int| 0 <= k < i implies #[trigger] evs.subrange(0, i)[k] == Seq::new(
            i as nat,
            |j: int| frame_event(bs[j], None),
        )[k] by {
            assert(evs.subrange(0, i)[k] == evs[k]);
        }
    }
    assert(evs.subrange(i + 1, evs.len() as int) =~= Seq::new(
        (bs.len() - i - 1) as nat,
        |j: int| frame_event(bs[j + i + 1], None),
    )) by {
        assert forall|k: int| 0 <= k < evs.len() - i - 1 implies #[trigger] evs.subrange(
            i + 1,
            evs.len() as int,
        )[k] == Seq::new((bs.len() - i - 1) as nat, |j: int| frame_event(bs[j + i + 1], None))[k] by {
            assert(evs.subrange(i + 1, evs.len() as int)[k] == evs[k + i + 1]);
        }
    }
}

/// A header block that declares `Content-Length: K`, followed by exactly
/// K arbitrary bytes — blank lines included — decodes to exactly one
/// event whose body is byte-identical to those K bytes, routed like any
/// complete event, with the engine back in its initial decoding state.
pub proof fn lemma_length_framed_event(m: EngineModel, ls: Seq<Seq<u8>>, body: Seq<u8>)
    requires
        m.codec == CodecModel::initial(),
        m.pending is None,
        crate::codec::wf_block_lines(ls),
        ls.len() <= crate::headers::MAX_HEADERS,
        spec_content_len(ls) == Some(body.len() as int),
    ensures
        spec_pump(with_bytes(m, crate::codec::block_bytes(ls) + body)) == (EngineModel {
            codec: CodecModel::initial(),
            ..spec_route_event(m, frame_event(ls, Some(body)))
        }),
{
    let m2 = with_bytes(m, crate::codec::block_bytes(ls) + body);
    assert(m2.codec.buf =~= crate::codec::block_bytes(ls) + body);
    crate::codec::lemma_decode_block(Seq::empty(), ls, body);
    crate::codec::lemma_append_all_within_bound(Seq::empty(), ls);
    let out = spec_decode(m2.codec);
    assert(out.frame == Some(FrameModel::Header(ls)));
    assert(out.next == (CodecModel {
        lines: Seq::empty(),
        scanned: 0,
        body_len: Some(body.len()),
        buf: body,
    }));
    let m3 = spec_route_frame(EngineModel { codec: out.next, ..m2 }, FrameModel::Header(ls));
    assert(m3 == (EngineModel { codec: out.next, pending: Some(ls), ..m2 }));
    assert(spec_pump(m2) == spec_pump(m3));
    let out2 = spec_decode(m3.codec);
    assert(out2.frame == Some(FrameModel::Body(body))) by {
        assert(body.take(body.len() as int) =~= body);
    }
    assert(out2.next == (CodecModel {
        lines: Seq::empty(),
        scanned: 0,
        body_len: None,
        buf: body.skip(body.len() as int),
    }));
    let m4 = spec_route_frame(EngineModel { codec: out2.next, ..m3 }, FrameModel::Body(body));
    assert((EngineModel { pending: None, codec: out2.next, ..m3 }) == (EngineModel {
        codec: out2.next,
        ..m
    }));
    assert(m4 == (EngineModel { codec: out2.next, ..spec_route_event(m, frame_event(ls, Some(body))) }));
    assert(spec_pump(m3) == spec_pump(m4));
    assert(m4.codec.buf =~= Seq::<u8>::empty());
    assert(spec_decode(m4.codec).frame is None);
    assert(spec_decode(m4.codec).next == (CodecModel {
        lines: Seq::empty(),
        scanned: 0,
        body_len: None,
        buf: m4.codec.buf,
    }));
    assert(spec_pump(m4) == (EngineModel { codec: spec_decode(m4.codec).next, ..m4 }));
    assert(spec_decode(m4.codec).next == CodecModel::initial()) by {
        assert(m4.codec.buf.len() == 0);
    }
}

/// The transport-free connection engine.
pub struct ESLConnInner {
    codec: ESLCodec,
    pending_read: Option<RawHeaders>,
    read_queue: VecDeque<RawEvent>,
    active_write: Option<SendRecvState>,
    done: bool,
}

impl View for ESLConnInner {
    type V = EngineModel;

    closed spec fn view(&self) -> EngineModel {
        EngineModel {
            codec: self.codec@,
            pending: match self.pending_read {
                Some(ref h) => Some(h@),
                None => None,
            },
            queue: Seq::new(self.read_queue@.len(), |i: int| self.read_queue@[i]@),
            write: match self.active_write {
                Some(ref w) => Some(w@),
                None => None,
            },
            done: self.done,
        }
    }
}

impl ESLConnInner {
    /// The codec's scan offset stays within its buffer.
    pub closed spec fn wf(&self) -> bool {
        self.codec.wf()
    }

    pub fn new() -> (r: ESLConnInner)
        ensures
            r@ == EngineModel::initial(),
            r.wf(),
    {
        let r = ESLConnInner {
            codec: ESLCodec::new(),
            pending_read: None,
            read_queue: VecDeque::new(),
            active_write: None,
            done: false,
        };
        proof {
            assert(r@.queue =~= Seq::<EventModel>::empty());
        }
        r
    }

    /// Classifies one complete event and routes it to the pending-write
    /// slot or the event queue, as `spec_route_event` says.
    fn route_event(&mut self, e: RawEvent)
        requires
            old(self).wf(),
        ensures
            final(self).wf(),
            final(self)@ == spec_route_event(old(self)@, e@),
    {
        if e.is_reply() || e.is_api_response() {
            // A reply completes the pending write; one arriving with no
            // write pending is dropped: a protocol anomaly recovered
            // from silently, never an error.
            if self.active_write.is_some() {
                self.active_write = Some(SendRecvState::Complete(e));
            }
        } else {
            self.read_queue.push_back(e);
            proof {
                assert(self@.queue =~= old(self)@.queue.push(e@));
            }
        }
    }

    /// Reassembles one decoded frame into zero or one complete events and
    /// routes them, as `spec_route_frame` says.
    fn route_frame(&mut self, f: ESLFrame)
        requires
            old(self).wf(),
        ensures
            final(self).wf(),
            final(self)@ == spec_route_frame(old(self)@, f@),
    {
        let cl_key = "Content-Length".as_bytes();
        proof {
            assert(cl_key@ == content_length_key());
        }
        match f {
            ESLFrame::Header(h) => {
                let ghost hv = h@;
                if h.get_header(cl_key).is_none() {
                    let e = RawEvent::new(h, None);
                    proof {
                        assert(e@ == frame_event(hv, None));
                    }
                    self.route_event(e);
                } else {
                    let prev = self.pending_read.take();
                    self.pending_read = Some(h);
                    match prev {
                        Some(p) => {
                            let ghost pv = p@;
                            let e = RawEvent::new(p, None);
                            proof {
                                assert(e@ == frame_event(pv, None));
                            }
                            self.route_event(e);
                        },
                        None => {},
                    }
                }
            },
            ESLFrame::Body(b) => {
                let ghost bv = b@;
                let h = match self.pending_read.take() {
                    Some(p) => p,
                    None => RawHeaders::new(),
                };
                let ghost hv = h@;
                let e = RawEvent::new(h, Some(b));
                proof {
                    assert(e@ == frame_event(hv, Some(bv)));
                }
                self.route_event(e);
            },
        }
    }

    /// Feeds newly received transport bytes to the engine and drains
    /// every complete frame out of them, routing each one.
    pub fn feed(&mut self, data: &[u8])
        requires
            old(self).wf(),
        ensures
            final(self).wf(),
            final(self)@ == spec_pump(with_bytes(old(self)@, data@)),
    {
        self.codec.feed(data);
        proof {
            assert(self@ == with_bytes(old(self)@, data@));
        }
        loop
            invariant
                self.wf(),
                spec_pump(self@) == spec_pump(with_bytes(old(self)@, data@)),
            decreases pump_measure(self@.codec),
        {
            let ghost pre = self@;
            let fr = self.codec.decode();
            match fr {
                None => {
                    proof {
                        assert(spec_pump(pre) == self@);
                    }
                    return;
                },
                Some(f) => {
                    proof {
                        lemma_decode_progress(pre.codec);
                    }
                    self.route_frame(f);
                    proof {
                        assert(spec_pump(pre) == spec_pump(self@));
                    }
                },
            }
        }
    }

    /// Takes the completed reply, when the pending write has one; any
    /// other slot state is left in place.
    pub fn pop_reply(&mut self) -> (r: Option<RawEvent>)
        requires
            old(self).wf(),
        ensures
            final(self).wf(),
            match old(self)@.write {
                Some(WriteModel::Complete(e)) => {
                    &&& r is Some
                    &&& r->0@ == e
                    &&& final(self)@ == (EngineModel { write: None, ..old(self)@ })
                },
                _ => r is None && final(self)@ == old(self)@,
            },
    {
        match self.active_write.take() {
            None => None,
            Some(SendRecvState::Complete(e)) => Some(e),
            Some(other) => {
                self.active_write = Some(other);
                None
            },
        }
    }

    /// Enqueues one command: the pending-write slot starts its lifecycle
    /// and the wire bytes to write are returned.
    pub fn start_send(&mut self, item: &Command) -> (r: Vec<u8>)
        requires
            old(self).wf(),
        ensures
            final(self).wf(),
            final(self)@ == (EngineModel { write: Some(WriteModel::Start), ..old(self)@ }),
            r@ == encoded_command(item@),
    {
        self.active_write = Some(SendRecvState::Start);
        let mut out: Vec<u8> = Vec::new();
        self.codec.encode(item, &mut out);
        proof {
            assert(out@ =~= encoded_command(item@));
        }
        out
    }

    /// Records that the enqueued command's bytes reached the transport:
    /// the slot moves from flushing to awaiting the reply.
    pub fn flush_done(&mut self)
        requires
            old(self).wf(),
        ensures
            final(self).wf(),
            old(self)@.write == Some(WriteModel::Start) ==> final(self)@ == (EngineModel {
                write: Some(WriteModel::Pending),
                ..old(self)@
            }),
            old(self)@.write != Some(WriteModel::Start) ==> final(self)@ == old(self)@,
    {
        match self.active_write.take() {
            Some(SendRecvState::Start) => {
                self.active_write = Some(SendRecvState::Pending);
            },
            other => {
                self.active_write = other;
            },
        }
    }

    /// Whether a command is currently in flight.
    pub fn has_active_write(&self) -> (r: bool)
        ensures
            r == (self@.write is Some),
    {
        self.active_write.is_some()
    }

    /// Whether the pending write has its reply ready to take.
    pub fn reply_ready(&self) -> (r: bool)
        ensures
            r == match self@.write {
                Some(WriteModel::Complete(_)) => true,
                _ => false,
            },
    {
        match &self.active_write {
            Some(SendRecvState::Complete(_)) => true,
            _ => false,
        }
    }

    /// Pops the next queued event-class frame, preserving arrival order.
    pub fn next_event(&mut self) -> (r: Option<RawEvent>)
        requires
            old(self).wf(),
        ensures
            final(self).wf(),
            old(self)@.queue.len() == 0 ==> r is None && final(self)@ == old(self)@,
            old(self)@.queue.len() > 0 ==> {
                &&& r is Some
                &&& r->0@ == old(self)@.queue[0]
                &&& final(self)@ == (EngineModel {
                    queue: old(self)@.queue.drop_first(),
                    ..old(self)@
                })
            },
    {
        let r = self.read_queue.pop_front();
        proof {
            if old(self)@.queue.len() > 0 {
                assert(self@.queue =~= old(self)@.queue.drop_first());
            }
        }
        r
    }

    /// Records that the transport ended or was closed.
    pub fn close(&mut self)
        requires
            old(self).wf(),
        ensures
            final(self).wf(),
            final(self)@ == (EngineModel { done: true, ..old(self)@ }),
    {
        self.done = true;
    }

    /// True once the stream has been observed to end or been closed.
    pub fn is_disconnected(&self) -> (r: bool)
        ensures
            r == self@.done,
    {
        self.done
    }
}

} // verus!
