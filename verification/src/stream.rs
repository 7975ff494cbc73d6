//! Turns the bytes of a server-sent-event stream, in chunks as they arrive,
//! into events.
use vstd::prelude::*;

use crate::sse::{close_block, line_step, opt_seq, EventView, ParserState, SseEvent, SseParser};
use crate::text::{strip_trailing, strip_trailing_str};

verus! {

/// What `String::from_utf8_lossy` makes of a byte sequence: its UTF-8
/// decoding, with each invalid sequence replaced by U+FFFD.
pub uninterp spec fn lossy_utf8(b: Seq<u8>) -> Seq<char>;

/// The bytes before the carriage returns (byte 13) that end `b`.
pub open spec fn trim_cr(b: Seq<u8>) -> Seq<u8>
    decreases b.len(),
{
    if b.len() > 0 && b.last() == 13u8 {
        trim_cr(b.drop_last())
    } else {
        b
    }
}

/// As many carriage returns as end `b`, as text.
pub open spec fn cr_tail(b: Seq<u8>) -> Seq<char>
    decreases b.len(),
{
    if b.len() > 0 && b.last() == 13u8 {
        cr_tail(b.drop_last()).push('\r')
    } else {
        Seq::empty()
    }
}

/// `String::from_utf8_lossy`: decodes bytes as UTF-8, replacing invalid
/// sequences. Its result is named by `lossy_utf8`. Two facts come from its
/// documentation: valid UTF-8 decodes plainly, and only invalid sequences
/// are replaced, so the carriage returns that end the bytes (each one the
/// one-byte ASCII character, never part of an invalid sequence) come out as
/// themselves after the decoding of the bytes before them.
#[verifier::external_body]
fn decode_lossy(b: &[u8]) -> (s: String)
    ensures
        s@ == lossy_utf8(b@),
        vstd::utf8::valid_utf8(b@) ==> s@ == vstd::utf8::decode_utf8(b@),
        s@ == lossy_utf8(trim_cr(b@)) + cr_tail(b@),
{
    String::from_utf8_lossy(b).into_owned()
}

/// The text that `from_utf8_lossy` gives of bytes: their decoding when
/// they are valid UTF-8, as its documentation says; otherwise the lossy
/// decoding of the bytes before the carriage returns that end them,
/// followed by those carriage returns.
pub open spec fn decoded_text(b: Seq<u8>) -> Seq<char> {
    if vstd::utf8::valid_utf8(b) {
        vstd::utf8::decode_utf8(b)
    } else {
        lossy_utf8(trim_cr(b)) + cr_tail(b)
    }
}

/// The text of a line's bytes: decoded, without its trailing carriage
/// returns.
pub open spec fn line_text(b: Seq<u8>) -> Seq<char> {
    strip_trailing(decoded_text(b), '\r')
}

/// The index of the first newline byte of `b`, if any.
pub open spec fn newline_at(b: Seq<u8>) -> Option<int>
    decreases b.len(),
{
    if b.len() == 0 {
        None
    } else if b[0] == 10u8 {
        Some(0)
    } else {
        match newline_at(b.drop_first()) {
            Some(k) => Some(k + 1),
            None => None,
        }
    }
}

/// Feeds every complete line of `buf` to a parser in state `st`: the bytes
/// left after the last newline, the parser's state, and the events given.
pub open spec fn drain(buf: Seq<u8>, st: ParserState) -> (Seq<u8>, ParserState, Seq<EventView>)
    decreases buf.len(),
{
    match newline_at(buf) {
        None => (buf, st, Seq::empty()),
        Some(k) => if 0 <= k < buf.len() {
            let (s1, e) = line_step(st, line_text(buf.take(k)));
            let (r, s2, es) = drain(buf.skip(k + 1), s1);
            (r, s2, opt_seq(e) + es)
        } else {
            (buf, st, Seq::empty())
        },
    }
}

/// At the end of the stream: the bytes left after the last newline are a
/// last line, and the block in progress is closed.
pub open spec fn finish_stream(pending: Seq<u8>, st: ParserState) -> (ParserState, Seq<EventView>) {
    let (s1, e1) = if pending.len() > 0 {
        line_step(st, line_text(pending))
    } else {
        (st, None)
    };
    let (s2, e2) = close_block(s1);
    (s2, opt_seq(e1) + opt_seq(e2))
}

/// The state of a decoder: the bytes of the line in progress, and the
/// parser's state.
pub struct DecoderState {
    pub pending: Seq<u8>,
    pub parser: ParserState,
}

pub open spec fn events_view(v: Seq<SseEvent>) -> Seq<EventView> {
    v.map_values(|e: SseEvent| e@)
}

/// Splits a byte stream into lines and parses them as server-sent events.
pub struct StreamDecoder {
    buffer: Vec<u8>,
    parser: SseParser,
}

impl View for StreamDecoder {
    type V = DecoderState;

    closed spec fn view(&self) -> DecoderState {
        DecoderState { pending: self.buffer@, parser: self.parser@ }
    }
}

proof fn lemma_newline_at_bounds(b: Seq<u8>)
    ensures
        newline_at(b) matches Some(k) ==> 0 <= k < b.len() && b[k] == 10u8 && forall|m: int|
            0 <= m < k ==> #[trigger] b[m] != 10u8,
        newline_at(b) is None ==> forall|m: int| 0 <= m < b.len() ==> #[trigger] b[m] != 10u8,
    decreases b.len(),
{
    if b.len() > 0 && b[0] != 10u8 {
        lemma_newline_at_bounds(b.drop_first());
        assert forall|m: int| 1 <= m < b.len() implies b[m] == b.drop_first()[m - 1] by {}
    }
}

proof fn lemma_newline_at_is(b: Seq<u8>, k: int)
    requires
        0 <= k <= b.len(),
        forall|m: int| 0 <= m < k ==> #[trigger] b[m] != 10u8,
        k == b.len() || b[k] == 10u8,
    ensures
        newline_at(b) == (if k < b.len() {
            Some(k)
        } else {
            None::<int>
        }),
    decreases k,
{
    if k > 0 {
        lemma_newline_at_is(b.drop_first(), k - 1);
    }
}

proof fn lemma_newline_at_append(x: Seq<u8>, c: Seq<u8>)
    ensures
        newline_at(x) matches Some(k) ==> newline_at(x + c) == Some(k),
        newline_at(x) is None ==> newline_at(x + c) == (match newline_at(c) {
            Some(k) => Some(k + x.len()),
            None => None::<int>,
        }),
{
    lemma_newline_at_bounds(x);
    lemma_newline_at_bounds(c);
    let xc = x + c;
    match newline_at(x) {
        Some(k) => {
            assert forall|m: int| 0 <= m < k implies #[trigger] xc[m] != 10u8 by {
                assert(xc[m] == x[m]);
            }
            lemma_newline_at_is(xc, k);
        },
        None => {
            match newline_at(c) {
                Some(k) => {
                    assert forall|m: int| 0 <= m < k + x.len() implies #[trigger] xc[m] != 10u8 by {
                        if m >= x.len() {
                            assert(xc[m] == c[m - x.len()]);
                        }
                    }
                    lemma_newline_at_is(xc, k + x.len());
                },
                None => {
                    assert forall|m: int| 0 <= m < xc.len() implies #[trigger] xc[m] != 10u8 by {
                        if m >= x.len() {
                            assert(xc[m] == c[m - x.len()]);
                        }
                    }
                    lemma_newline_at_is(xc, xc.len() as int);
                },
            }
        },
    }
}

proof fn lemma_drain_append(x: Seq<u8>, c: Seq<u8>, st: ParserState)
    ensures
        drain(x + c, st) == ({
            let (r1, s1, e1) = drain(x, st);
            let (r2, s2, e2) = drain(r1 + c, s1);
            (r2, s2, e1 + e2)
        }),
    decreases x.len(),
{
    lemma_newline_at_append(x, c);
    lemma_newline_at_bounds(x);
    match newline_at(x) {
        None => {
            let (r2, s2, e2) = drain(x + c, st);
            assert(Seq::<EventView>::empty() + e2 =~= e2);
        },
        Some(k) => {
            let xc = x + c;
            assert(xc.take(k) =~= x.take(k));
            assert(xc.skip(k + 1) =~= x.skip(k + 1) + c);
            let (s1, e) = line_step(st, line_text(x.take(k)));
            lemma_drain_append(x.skip(k + 1), c, s1);
            let (ra, sa, ea) = drain(x.skip(k + 1), s1);
            let (rb, sb, eb) = drain(ra + c, sa);
            assert(opt_seq(e) + (ea + eb) =~= (opt_seq(e) + ea) + eb);
        },
    }
}

/// Law: how the stream is cut into chunks does not matter. Pushing `c1` and
/// then `c2` gives the same events, in the same order, and leaves the same
/// state as pushing the two chunks as one.
pub proof fn law_chunking_irrelevant(pending: Seq<u8>, c1: Seq<u8>, c2: Seq<u8>, st: ParserState)
    ensures
        ({
            let (r1, s1, e1) = drain(pending + c1, st);
            let (r2, s2, e2) = drain(r1 + c2, s1);
            (r2, s2, e1 + e2)
        }) == drain(pending + (c1 + c2), st),
{
    assert(pending + (c1 + c2) =~= (pending + c1) + c2);
    lemma_drain_append(pending + c1, c2, st);
}

/// The bytes of lines, each encoded in UTF-8 and ended by a newline.
pub open spec fn lines_bytes(lines: Seq<Seq<char>>) -> Seq<u8>
    decreases lines.len(),
{
    if lines.len() == 0 {
        Seq::empty()
    } else {
        vstd::utf8::encode_utf8(lines[0]) + seq![10u8] + lines_bytes(lines.drop_first())
    }
}

/// The texts that the decoder makes of lines given as their UTF-8 bytes.
pub open spec fn decoded_lines(lines: Seq<Seq<char>>) -> Seq<Seq<char>> {
    lines.map_values(|l: Seq<char>| line_text(vstd::utf8::encode_utf8(l)))
}

proof fn lemma_scalar_no_newline(c: char)
    requires
        c != '\n',
    ensures
        forall|i: int|
            0 <= i < vstd::utf8::encode_scalar(c as u32).len() ==> #[trigger] vstd::utf8::encode_scalar(
                c as u32,
            )[i] != 10u8,
{
    let v = c as u32;
    assert(v != 10);
    assert(v <= 0x7F ==> ((v & 0x7F) as u8) != 10u8) by (bit_vector)
        requires
            v != 10,
    ;
    assert((0xC0u8 | ((v >> 6) & 0x1F) as u8) != 10u8) by (bit_vector);
    assert((0xE0u8 | ((v >> 12) & 0x0F) as u8) != 10u8) by (bit_vector);
    assert((0xF0u8 | ((v >> 18) & 0x7) as u8) != 10u8) by (bit_vector);
    assert((0x80u8 | (v & 0x3F) as u8) != 10u8) by (bit_vector);
    assert((0x80u8 | ((v >> 6) & 0x3F) as u8) != 10u8) by (bit_vector);
    assert((0x80u8 | ((v >> 12) & 0x3F) as u8) != 10u8) by (bit_vector);
}

proof fn lemma_encode_no_newline(l: Seq<char>)
    requires
        forall|i: int| 0 <= i < l.len() ==> #[trigger] l[i] != '\n',
    ensures
        forall|i: int|
            0 <= i < vstd::utf8::encode_utf8(l).len() ==> #[trigger] vstd::utf8::encode_utf8(l)[i]
                != 10u8,
    decreases l.len(),
{
    if l.len() > 0 {
        lemma_scalar_no_newline(l[0]);
        lemma_encode_no_newline(l.drop_first());
        let a = vstd::utf8::encode_scalar(l[0] as u32);
        let b = vstd::utf8::encode_utf8(l.drop_first());
        assert forall|i: int| 0 <= i < (a + b).len() implies #[trigger] (a + b)[i] != 10u8 by {
            if i >= a.len() {
                assert((a + b)[i] == b[i - a.len()]);
            }
        }
    }
}

/// Law: the decoder feeds the parser exactly the lines between newlines,
/// decoded, in order, and keeps nothing once the last newline is read.
pub proof fn law_lines_fed_in_order(lines: Seq<Seq<char>>, st: ParserState)
    requires
        forall|k: int, i: int|
            0 <= k < lines.len() && 0 <= i < lines[k].len() ==> #[trigger] lines[k][i] != '\n',
    ensures
        ({
            let (s, es) = crate::sse::feed_lines(st, decoded_lines(lines));
            drain(lines_bytes(lines), st) == (Seq::<u8>::empty(), s, es)
        }),
    decreases lines.len(),
{
    let b = lines_bytes(lines);
    if lines.len() == 0 {
        assert(newline_at(b) is None);
        assert(decoded_lines(lines) =~= Seq::<Seq<char>>::empty());
    } else {
        let l = lines[0];
        let e = vstd::utf8::encode_utf8(l);
        let rest = lines.drop_first();
        assert forall|i: int| 0 <= i < l.len() implies #[trigger] l[i] != '\n' by {
            assert(lines[0][i] != '\n');
        }
        lemma_encode_no_newline(l);
        assert forall|m: int| 0 <= m < e.len() implies #[trigger] b[m] != 10u8 by {
            assert(b[m] == e[m]);
        }
        assert(b[e.len() as int] == 10u8);
        lemma_newline_at_is(b, e.len() as int);
        assert(b.take(e.len() as int) =~= e);
        assert(b.skip(e.len() as int + 1) =~= lines_bytes(rest));
        assert forall|k: int, i: int|
            0 <= k < rest.len() && 0 <= i < rest[k].len() implies #[trigger] rest[k][i] != '\n' by {
            assert(rest[k] == lines[k + 1]);
        }
        law_lines_fed_in_order(rest, line_step(st, line_text(e)).0);
        let d = decoded_lines(lines);
        assert(d[0] == line_text(e));
        assert(d.drop_first() =~= decoded_lines(rest));
    }
}

/// The bytes of a sequence of chunks, one after the other.
pub open spec fn concat_chunks(chunks: Seq<Seq<u8>>) -> Seq<u8>
    decreases chunks.len(),
{
    if chunks.len() == 0 {
        Seq::empty()
    } else {
        chunks[0] + concat_chunks(chunks.drop_first())
    }
}

/// Pushing each chunk in turn: the bytes left pending, the parser's state
/// and the events given.
pub open spec fn feed_chunks(pending: Seq<u8>, st: ParserState, chunks: Seq<Seq<u8>>) -> (
    Seq<u8>,
    ParserState,
    Seq<EventView>,
)
    decreases chunks.len(),
{
    if chunks.len() == 0 {
        (pending, st, Seq::empty())
    } else {
        let (p1, s1, e1) = drain(pending + chunks[0], st);
        let (p2, s2, e2) = feed_chunks(p1, s1, chunks.drop_first());
        (p2, s2, e1 + e2)
    }
}

/// The events of a whole stream given as chunks to a new decoder: those of
/// each `push_chunk`, in turn, then those of `finish`.
pub open spec fn stream_events(chunks: Seq<Seq<u8>>) -> Seq<EventView> {
    let (p, s, e) = feed_chunks(Seq::empty(), crate::sse::empty_state(), chunks);
    e + finish_stream(p, s).1
}

/// A body with every CR LF pair written as a lone LF: the carriage return
/// before each newline is dropped.
pub open spec fn crlf_to_lf(b: Seq<u8>) -> Seq<u8>
    decreases b.len(),
{
    match newline_at(b) {
        Some(k) => if 0 <= k < b.len() {
            let l = b.take(k);
            let l1 = if l.len() > 0 && l.last() == 13u8 {
                l.drop_last()
            } else {
                l
            };
            l1 + seq![10u8] + crlf_to_lf(b.skip(k + 1))
        } else {
            b
        },
        None => b,
    }
}

proof fn lemma_drain_rest_has_no_newline(b: Seq<u8>, st: ParserState)
    ensures
        newline_at(drain(b, st).0) is None,
    decreases b.len(),
{
    match newline_at(b) {
        Some(k) => {
            lemma_newline_at_bounds(b);
            let (s1, e) = line_step(st, line_text(b.take(k)));
            lemma_drain_rest_has_no_newline(b.skip(k + 1), s1);
        },
        None => {},
    }
}

proof fn lemma_feed_chunks_is_drain(pending: Seq<u8>, st: ParserState, chunks: Seq<Seq<u8>>)
    requires
        newline_at(pending) is None,
    ensures
        feed_chunks(pending, st, chunks) == drain(pending + concat_chunks(chunks), st),
    decreases chunks.len(),
{
    if chunks.len() == 0 {
        assert(pending + concat_chunks(chunks) =~= pending);
        lemma_newline_at_bounds(pending);
    } else {
        let c = chunks[0];
        let rest = chunks.drop_first();
        let (p1, s1, e1) = drain(pending + c, st);
        lemma_drain_rest_has_no_newline(pending + c, st);
        lemma_feed_chunks_is_drain(p1, s1, rest);
        lemma_drain_append(pending + c, concat_chunks(rest), st);
        assert(pending + concat_chunks(chunks) =~= (pending + c) + concat_chunks(rest));
    }
}

proof fn lemma_stream_events_whole(chunks: Seq<Seq<u8>>)
    ensures
        stream_events(chunks) == stream_events(seq![concat_chunks(chunks)]),
{
    let x = concat_chunks(chunks);
    let e = Seq::<u8>::empty();
    let st = crate::sse::empty_state();
    lemma_newline_at_bounds(e);
    lemma_feed_chunks_is_drain(e, st, chunks);
    lemma_feed_chunks_is_drain(e, st, seq![x]);
    assert(concat_chunks(seq![x].drop_first()) =~= Seq::<u8>::empty());
    assert(concat_chunks(seq![x]) =~= x);
}

proof fn lemma_decode_cr(l: Seq<u8>)
    requires
        vstd::utf8::valid_utf8(l),
        l.len() > 0,
        l.last() == 13u8,
    ensures
        vstd::utf8::valid_utf8(l.drop_last()),
        vstd::utf8::decode_utf8(l) == vstd::utf8::decode_utf8(l.drop_last()).push('\r'),
{
    let k = l.len() - 1;
    vstd::utf8::is_char_boundary_iff_not_is_continuation_byte(l, k);
    vstd::utf8::valid_utf8_split(l, k);
    vstd::utf8::decode_utf8_split(l, k);
    assert(l.subrange(0, k) =~= l.drop_last());
    let cr = seq!['\r'];
    assert(((13u32 & 0x7F) as u8) == 13u8) by (bit_vector);
    assert(vstd::utf8::encode_utf8(cr) =~= seq![13u8]) by {
        assert(cr[0] == '\r');
        assert(('\r' as u32) == 13);
        assert(vstd::utf8::has_width_1_encoding(13u32));
        assert(vstd::utf8::leading_byte_width_1(13u32) == 13u8);
        assert(vstd::utf8::encode_scalar(13u32) =~= seq![13u8]);
        assert(cr.drop_first() =~= Seq::<char>::empty());
        assert(vstd::utf8::encode_utf8(cr.drop_first()) =~= Seq::<u8>::empty());
        assert(vstd::utf8::encode_utf8(cr) == vstd::utf8::encode_scalar(cr[0] as u32)
            + vstd::utf8::encode_utf8(cr.drop_first()));
    }
    vstd::utf8::encode_utf8_decode_utf8(cr);
    assert(l.subrange(k, l.len() as int) =~= seq![13u8]);
}

proof fn lemma_cr_keeps_valid(l: Seq<u8>)
    requires
        vstd::utf8::valid_utf8(l),
    ensures
        vstd::utf8::valid_utf8(l.push(13u8)),
{
    let cr = seq!['\r'];
    assert(((13u32 & 0x7F) as u8) == 13u8) by (bit_vector);
    assert(vstd::utf8::encode_utf8(cr) =~= seq![13u8]) by {
        assert(cr[0] == '\r');
        assert(('\r' as u32) == 13);
        assert(vstd::utf8::has_width_1_encoding(13u32));
        assert(vstd::utf8::leading_byte_width_1(13u32) == 13u8);
        assert(vstd::utf8::encode_scalar(13u32) =~= seq![13u8]);
        assert(cr.drop_first() =~= Seq::<char>::empty());
        assert(vstd::utf8::encode_utf8(cr.drop_first()) =~= Seq::<u8>::empty());
        assert(vstd::utf8::encode_utf8(cr) == vstd::utf8::encode_scalar(cr[0] as u32)
            + vstd::utf8::encode_utf8(cr.drop_first()));
    }
    vstd::utf8::encode_utf8_valid_utf8(cr);
    vstd::utf8::valid_utf8_concat(l, seq![13u8]);
    assert(l + seq![13u8] =~= l.push(13u8));
}

proof fn lemma_line_text_without_cr(l: Seq<u8>)
    ensures
        line_text(if l.len() > 0 && l.last() == 13u8 {
            l.drop_last()
        } else {
            l
        }) == line_text(l),
{
    if l.len() > 0 && l.last() == 13u8 {
        let l1 = l.drop_last();
        assert(l1.push(13u8) =~= l);
        let d = decoded_text(l1);
        if vstd::utf8::valid_utf8(l) {
            lemma_decode_cr(l);
        } else {
            if vstd::utf8::valid_utf8(l1) {
                lemma_cr_keeps_valid(l1);
            }
            assert(trim_cr(l) == trim_cr(l1));
            assert(cr_tail(l) == cr_tail(l1).push('\r'));
            assert(decoded_text(l) =~= d.push('\r'));
        }
        assert(decoded_text(l) == d.push('\r'));
        assert(d.push('\r').drop_last() =~= d);
    }
}

proof fn lemma_drain_crlf(b: Seq<u8>, st: ParserState)
    ensures
        drain(crlf_to_lf(b), st) == drain(b, st),
    decreases b.len(),
{
    lemma_newline_at_bounds(b);
    match newline_at(b) {
        Some(k) => {
            let l = b.take(k);
            let r = b.skip(k + 1);
            let l1 = if l.len() > 0 && l.last() == 13u8 {
                l.drop_last()
            } else {
                l
            };
            let n = crlf_to_lf(b);
            assert(n == l1 + seq![10u8] + crlf_to_lf(r));
            assert forall|m: int| 0 <= m < l1.len() implies #[trigger] n[m] != 10u8 by {
                assert(n[m] == l1[m]);
                assert(l1[m] == b[m]);
            }
            assert(n[l1.len() as int] == 10u8);
            lemma_newline_at_is(n, l1.len() as int);
            assert(n.take(l1.len() as int) =~= l1);
            assert(n.skip(l1.len() as int + 1) =~= crlf_to_lf(r));
            lemma_line_text_without_cr(l);
            let (s1, e) = line_step(st, line_text(l));
            lemma_drain_crlf(r, s1);
        },
        None => {},
    }
}

/// Law: a whole stream gives the same events, in the same order, however
/// it is cut into chunks and whether its lines end with CR LF or with LF:
/// two bodies that are equal once every CR LF is written as LF give the
/// same events, including the last line when no newline ends it and the
/// last event when no blank line follows it.
pub proof fn law_stream_events_same(xs: Seq<Seq<u8>>, ys: Seq<Seq<u8>>)
    requires
        crlf_to_lf(concat_chunks(xs)) == crlf_to_lf(concat_chunks(ys)),
    ensures
        stream_events(xs) == stream_events(ys),
{
    let x = concat_chunks(xs);
    let y = concat_chunks(ys);
    let st = crate::sse::empty_state();
    lemma_stream_events_whole(xs);
    lemma_stream_events_whole(ys);
    lemma_drain_crlf(x, st);
    lemma_drain_crlf(y, st);
    let e = Seq::<u8>::empty();
    lemma_newline_at_bounds(e);
    lemma_feed_chunks_is_drain(e, st, seq![x]);
    lemma_feed_chunks_is_drain(e, st, seq![y]);
    assert(concat_chunks(seq![x].drop_first()) =~= Seq::<u8>::empty());
    assert(concat_chunks(seq![x]) =~= x);
    assert(concat_chunks(seq![y].drop_first()) =~= Seq::<u8>::empty());
    assert(concat_chunks(seq![y]) =~= y);
    assert(e + x =~= x);
    assert(e + y =~= y);
}

impl StreamDecoder {
    pub fn new() -> (d: Self)
        ensures
            d@.pending == Seq::<u8>::empty(),
            d@.parser == crate::sse::empty_state(),
    {
        StreamDecoder { buffer: Vec::new(), parser: SseParser::new() }
    }

    /// Adds the bytes of a chunk, and returns the events that the lines
    /// completed by it give, in order.
    pub fn push_chunk(&mut self, chunk: &[u8]) -> (events: Vec<SseEvent>)
        ensures
            (final(self)@.pending, final(self)@.parser, events_view(events@)) == drain(
                old(self)@.pending + chunk@,
                old(self)@.parser,
            ),
    {
        let ghost st0 = self.parser@;
        let mut i: usize = 0;
        while i < chunk.len()
            invariant
                i <= chunk.len(),
                self.buffer@ == old(self)@.pending + chunk@.take(i as int),
                self.parser@ == st0,
            decreases chunk.len() - i,
        {
            self.buffer.push(chunk[i]);
            assert(chunk@.take(i + 1) =~= chunk@.take(i as int).push(chunk@[i as int]));
            i = i + 1;
        }
        assert(chunk@.take(chunk.len() as int) =~= chunk@);
        let ghost all = self.buffer@;
        let mut events: Vec<SseEvent> = Vec::new();
        let mut start: usize = 0;
        let n = self.buffer.len();
        assert(all.skip(0) =~= all);
        loop
            invariant
                start <= n == self.buffer.len(),
                self.buffer@ == all,
                drain(all, st0) == ({
                    let (r, s, es) = drain(all.skip(start as int), self.parser@);
                    (r, s, events_view(events@) + es)
                }),
            ensures
                start <= n == self.buffer.len(),
                self.buffer@ == all,
                drain(all, st0) == (all.skip(start as int), self.parser@, events_view(events@)),
            decreases n - start,
        {
            let ghost rest = all.skip(start as int);
            let mut pos: usize = start;
            while pos < n && self.buffer[pos] != 10u8
                invariant
                    start <= pos <= n == self.buffer.len(),
                    self.buffer@ == all,
                    rest == all.skip(start as int),
                    forall|m: int| 0 <= m < pos - start ==> #[trigger] rest[m] != 10u8,
                decreases n - pos,
            {
                pos = pos + 1;
            }
            proof {
                lemma_newline_at_is(rest, pos - start);
            }
            if pos == n {
                assert(events_view(events@) + Seq::<EventView>::empty() =~= events_view(events@));
                break;
            }
            let mut line: Vec<u8> = Vec::new();
            let mut m: usize = start;
            while m < pos
                invariant
                    start <= m <= pos < n == self.buffer.len(),
                    self.buffer@ == all,
                    line@ == all.subrange(start as int, m as int),
                decreases pos - m,
            {
                line.push(self.buffer[m]);
                assert(all.subrange(start as int, m + 1) =~= all.subrange(start as int, m as int).push(
                    all[m as int],
                ));
                m = m + 1;
            }
            assert(line@ =~= rest.take(pos - start));
            let decoded = decode_lossy(line.as_slice());
            let text = strip_trailing_str(decoded.as_str(), '\r');
            let ghost before = self.parser@;
            let ghost evs_before = events@;
            let e = self.parser.push_line(text.as_str());
            proof {
                assert(rest.skip(pos - start + 1) =~= all.skip(pos + 1));
            }
            match e {
                Some(ev) => {
                    events.push(ev);
                },
                None => {},
            }
            proof {
                let (s1, e1) = line_step(before, line_text(rest.take(pos - start)));
                let (r, s2, es) = drain(all.skip(pos + 1), s1);
                assert(events_view(events@) =~= events_view(evs_before) + opt_seq(e1));
                assert(events_view(evs_before) + (opt_seq(e1) + es) =~= events_view(events@) + es);
            }
            start = pos + 1;
        }
        let mut left: Vec<u8> = Vec::new();
        let mut m: usize = start;
        while m < n
            invariant
                start <= m <= n == self.buffer.len(),
                self.buffer@ == all,
                left@ == all.subrange(start as int, m as int),
            decreases n - m,
        {
            left.push(self.buffer[m]);
            assert(all.subrange(start as int, m + 1) =~= all.subrange(start as int, m as int).push(
                all[m as int],
            ));
            m = m + 1;
        }
        assert(left@ =~= all.skip(start as int));
        self.buffer = left;
        events
    }

    /// Ends the stream: the bytes after the last newline make a last line,
    /// and the block in progress is closed. Returns the events these give.
    pub fn finish(&mut self) -> (events: Vec<SseEvent>)
        ensures
            final(self)@.pending == Seq::<u8>::empty(),
            (final(self)@.parser, events_view(events@)) == finish_stream(
                old(self)@.pending,
                old(self)@.parser,
            ),
    {
        let mut events: Vec<SseEvent> = Vec::new();
        let ghost st0 = self.parser@;
        if self.buffer.len() > 0 {
            let decoded = decode_lossy(self.buffer.as_slice());
            let text = strip_trailing_str(decoded.as_str(), '\r');
            match self.parser.push_line(text.as_str()) {
                Some(ev) => events.push(ev),
                None => {},
            }
        }
        let ghost mid = events@;
        match self.parser.flush() {
            Some(ev) => events.push(ev),
            None => {},
        }
        self.buffer = Vec::new();
        proof {
            assert(events_view(mid) =~= opt_seq(
                if old(self)@.pending.len() > 0 {
                    line_step(st0, line_text(old(self)@.pending)).1
                } else {
                    None
                },
            ));
            assert(events_view(events@) =~= events_view(mid) + opt_seq(
                close_block(
                    if old(self)@.pending.len() > 0 {
                        line_step(st0, line_text(old(self)@.pending)).0
                    } else {
                        st0
                    },
                ).1,
            ));
        }
        events
    }
}

} // verus!
