//! A line-at-a-time parser for server-sent events.
use vstd::prelude::*;

use crate::text::{
    is_white_space, join, join_strings, strip_prefix, trim, trim_end, trim_start, trim_str,
};

verus! {

/// A parsed SSE event with its type and data payload.
#[derive(Debug, Clone)]
pub struct SseEvent {
    pub event: String,
    pub data: String,
}

/// An event as a pair of character sequences: its type, then its data.
pub type EventView = (Seq<char>, Seq<char>);

impl View for SseEvent {
    type V = EventView;

    open spec fn view(&self) -> EventView {
        (self.event@, self.data@)
    }
}

/// What a parser has gathered of the event block it is in.
pub struct ParserState {
    /// The type given by the last `event:` line of the block, if any.
    pub event: Option<Seq<char>>,
    /// The payloads of the block's `data:` lines, in order.
    pub data: Seq<Seq<char>>,
}

/// The state of a parser that is between event blocks.
pub open spec fn empty_state() -> ParserState {
    ParserState { event: None, data: Seq::empty() }
}

pub open spec fn opt_event_view(e: Option<SseEvent>) -> Option<EventView> {
    match e {
        Some(ev) => Some(ev@),
        None => None,
    }
}

/// Closes the block gathered in `st`: when it holds anything, the event it
/// makes (type `message` when no `event:` line came) and an empty parser;
/// otherwise nothing, and the parser unchanged.
pub open spec fn close_block(st: ParserState) -> (ParserState, Option<EventView>) {
    if st.event is Some || st.data.len() > 0 {
        let ty = match st.event {
            Some(e) => e,
            None => "message"@,
        };
        (empty_state(), Some((ty, join(st.data, "\n"@))))
    } else {
        (st, None)
    }
}

/// What one line does to a parser: a blank line (after trimming) closes the
/// block; `event:` sets the type; `data:` adds a payload; anything else, such
/// as a comment starting with `:`, is ignored.
pub open spec fn line_step(st: ParserState, line: Seq<char>) -> (ParserState, Option<EventView>) {
    let l = trim(line);
    if l.len() == 0 {
        close_block(st)
    } else if "event:"@.is_prefix_of(l) {
        (ParserState { event: Some(trim(l.skip("event:"@.len() as int))), data: st.data }, None)
    } else if "data:"@.is_prefix_of(l) {
        (ParserState { event: st.event, data: st.data.push(trim(l.skip("data:"@.len() as int))) }, None)
    } else {
        (st, None)
    }
}

/// A streaming SSE parser that processes lines one at a time.
/// Call `push_line` for each line received; it returns `Some(SseEvent)`
/// when a complete event block has been accumulated.
pub struct SseParser {
    current_event: Option<String>,
    current_data: Vec<String>,
}

impl View for SseParser {
    type V = ParserState;

    closed spec fn view(&self) -> ParserState {
        ParserState {
            event: match self.current_event {
                Some(e) => Some(e@),
                None => None,
            },
            data: self.current_data@.map_values(|d: String| d@),
        }
    }
}

impl SseParser {
    pub fn new() -> (p: Self)
        ensures
            p@ == empty_state(),
    {
        let p = SseParser { current_event: None, current_data: Vec::new() };
        assert(p@.data =~= Seq::<Seq<char>>::empty());
        p
    }

    fn close(&mut self) -> (r: Option<SseEvent>)
        ensures
            (final(self)@, opt_event_view(r)) == close_block(old(self)@),
    {
        if self.current_event.is_some() || !self.current_data.is_empty() {
            let event = match self.current_event.take() {
                Some(e) => e,
                None => "message".to_string(),
            };
            let data = join_strings(&self.current_data, "\n");
            self.current_data.clear();
            proof {
                assert(self@.data =~= Seq::<Seq<char>>::empty());
            }
            Some(SseEvent { event, data })
        } else {
            None
        }
    }

    /// Push a raw line (without trailing newline) into the parser.
    /// Returns `Some(SseEvent)` when a complete event block is ready.
    pub fn push_line(&mut self, line: &str) -> (r: Option<SseEvent>)
        ensures
            (final(self)@, opt_event_view(r)) == line_step(old(self)@, line@),
    {
        let line = trim_str(line);
        if line.as_str().is_empty() {
            return self.close();
        }
        if let Some(rest) = strip_prefix(line.as_str(), "event:") {
            self.current_event = Some(trim_str(rest.as_str()));
        } else if let Some(rest) = strip_prefix(line.as_str(), "data:") {
            let item = trim_str(rest.as_str());
            self.current_data.push(item);
            proof {
                assert(self@.data =~= old(self)@.data.push(item@));
            }
        }
        None
    }

    /// Flush any remaining buffered data (call when stream ends).
    pub fn flush(&mut self) -> (r: Option<SseEvent>)
        ensures
            (final(self)@, opt_event_view(r)) == close_block(old(self)@),
    {
        self.close()
    }
}

/// An optional event as a sequence of none or one.
pub open spec fn opt_seq(e: Option<EventView>) -> Seq<EventView> {
    match e {
        Some(ev) => seq![ev],
        None => Seq::empty(),
    }
}

/// The events that a sequence of lines gives, one line after the other,
/// and the state of the parser after the last of them.
pub open spec fn feed_lines(st: ParserState, lines: Seq<Seq<char>>) -> (ParserState, Seq<EventView>)
    decreases lines.len(),
{
    if lines.len() == 0 {
        (st, Seq::empty())
    } else {
        let (s1, e) = line_step(st, lines[0]);
        let (s2, es) = feed_lines(s1, lines.drop_first());
        (s2, opt_seq(e) + es)
    }
}

/// The line `event:<e>`.
pub open spec fn event_line(e: Seq<char>) -> Seq<char> {
    "event:"@ + e
}

/// The line `data:<d>`.
pub open spec fn data_line(d: Seq<char>) -> Seq<char> {
    "data:"@ + d
}

/// The block that writes an event of type `e` whose payload lines are `ds`:
/// its `event:` line, one `data:` line per payload line, and a blank line.
pub open spec fn block_lines(e: Seq<char>, ds: Seq<Seq<char>>) -> Seq<Seq<char>> {
    seq![event_line(e)] + data_lines(ds) + seq![Seq::<char>::empty()]
}

/// One `data:` line per payload line of `ds`.
pub open spec fn data_lines(ds: Seq<Seq<char>>) -> Seq<Seq<char>> {
    ds.map_values(|d: Seq<char>| data_line(d))
}

proof fn lemma_feed_lines_append(st: ParserState, a: Seq<Seq<char>>, b: Seq<Seq<char>>)
    ensures
        feed_lines(st, a + b) == ({
            let (s1, e1) = feed_lines(st, a);
            let (s2, e2) = feed_lines(s1, b);
            (s2, e1 + e2)
        }),
    decreases a.len(),
{
    if a.len() == 0 {
        assert(a + b =~= b);
        assert(Seq::<EventView>::empty() + feed_lines(st, b).1 =~= feed_lines(st, b).1);
    } else {
        assert((a + b).drop_first() =~= a.drop_first() + b);
        assert((a + b)[0] == a[0]);
        lemma_feed_lines_append(line_step(st, a[0]).0, a.drop_first(), b);
        let (s1, e) = line_step(st, a[0]);
        let (sa, ea) = feed_lines(s1, a.drop_first());
        let (sb, eb) = feed_lines(sa, b);
        assert(opt_seq(e) + (ea + eb) =~= (opt_seq(e) + ea) + eb);
    }
}

proof fn lemma_trim_keeps(s: Seq<char>)
    requires
        s.len() > 0,
        !is_white_space(s[0]),
        !is_white_space(s.last()),
    ensures
        trim(s) == s,
{
    assert(trim_start(s) == s);
}

proof fn lemma_trim_of_trimmed_tail(p: Seq<char>, x: Seq<char>)
    requires
        p.len() > 0,
        !is_white_space(p[0]),
        !is_white_space(p.last()),
        trim(x) == x,
    ensures
        trim(p + x) == p + x,
{
    let s = p + x;
    assert(s[0] == p[0]);
    if x.len() == 0 {
        assert(s =~= p);
    } else {
        // the last character of x is not white space, since trimming keeps x
        if is_white_space(x.last()) {
            lemma_trim_end_of_ws_last(x);
            assert(false);
        }
        assert(s.last() == x.last());
    }
    lemma_trim_keeps(s);
}

proof fn lemma_trim_end_of_ws_last(x: Seq<char>)
    requires
        x.len() > 0,
        is_white_space(x.last()),
    ensures
        trim(x) != x,
{
    lemma_trim_end_shorter(trim_start(x));
    lemma_trim_start_shorter(x);
    if trim_start(x).len() == x.len() {
        lemma_trim_start_same_len(x);
        assert(trim_end(x).len() < x.len());
    }
}

proof fn lemma_trim_start_shorter(x: Seq<char>)
    ensures
        trim_start(x).len() <= x.len(),
        trim_start(x) == x.skip(x.len() - trim_start(x).len()),
    decreases x.len(),
{
    if x.len() > 0 && is_white_space(x[0]) {
        lemma_trim_start_shorter(x.drop_first());
        let t = trim_start(x.drop_first());
        assert(x.drop_first().skip(x.drop_first().len() - t.len()) =~= x.skip(x.len() - t.len()));
    } else {
        assert(x.skip(0) =~= x);
    }
}

proof fn lemma_trim_start_same_len(x: Seq<char>)
    requires
        trim_start(x).len() == x.len(),
    ensures
        trim_start(x) == x,
{
    lemma_trim_start_shorter(x);
    assert(x.skip(0) =~= x);
}

proof fn lemma_trim_end_shorter(x: Seq<char>)
    ensures
        trim_end(x).len() <= x.len(),
        x.len() > 0 && is_white_space(x.last()) ==> trim_end(x).len() < x.len(),
    decreases x.len(),
{
    if x.len() > 0 && is_white_space(x.last()) {
        lemma_trim_end_shorter(x.drop_last());
    }
}

proof fn lemma_data_lines(e: Option<Seq<char>>, acc: Seq<Seq<char>>, ds: Seq<Seq<char>>)
    requires
        forall|i: int| 0 <= i < ds.len() ==> trim(#[trigger] ds[i]) == ds[i],
    ensures
        feed_lines(ParserState { event: e, data: acc }, data_lines(ds))
            == (ParserState { event: e, data: acc + ds }, Seq::<EventView>::empty()),
    decreases ds.len(),
{
    let lines = data_lines(ds);
    if ds.len() == 0 {
        assert(acc + ds =~= acc);
    } else {
        reveal_strlit("data:");
        reveal_strlit("event:");
        let d = ds[0];
        let l = data_line(d);
        assert(lines[0] == l);
        lemma_trim_of_trimmed_tail("data:"@, d);
        assert(l[0] == "data:"@[0]);
        lemma_first_differs("event:"@, l);
        assert("data:"@.is_prefix_of(l));
        assert(l.skip("data:"@.len() as int) =~= d);
        assert(lines.drop_first() =~= data_lines(ds.drop_first()));
        let st = ParserState { event: e, data: acc };
        let st1 = ParserState { event: e, data: acc.push(d) };
        assert(line_step(st, l) == (st1, None::<EventView>));
        lemma_data_lines(e, acc.push(d), ds.drop_first());
        assert(acc.push(d) + ds.drop_first() =~= acc + ds);
        assert(Seq::<EventView>::empty() + Seq::<EventView>::empty() =~= Seq::<EventView>::empty());
    }
}

/// Law: a block written as `event:<e>`, then `data:<d>` for each payload line
/// `d`, then a blank line, is read back by a fresh parser as exactly one event
/// of type `e` whose data is the payload lines joined with newlines, and
/// the parser is left empty (neither `e` nor any `d` has surrounding white
/// space).
pub proof fn law_block_round_trip(e: Seq<char>, ds: Seq<Seq<char>>)
    requires
        trim(e) == e,
        forall|i: int| 0 <= i < ds.len() ==> trim(#[trigger] ds[i]) == ds[i],
    ensures
        feed_lines(empty_state(), block_lines(e, ds)) == (empty_state(), seq![(e, join(ds, "\n"@))]),
{
    reveal_strlit("event:");
    let lines = block_lines(e, ds);
    let head = seq![event_line(e)];
    let mid = data_lines(ds);
    let tail = seq![Seq::<char>::empty()];
    assert(lines =~= head + (mid + tail));
    lemma_feed_lines_append(empty_state(), head, mid + tail);
    lemma_trim_of_trimmed_tail("event:"@, e);
    let l = event_line(e);
    assert("event:"@.is_prefix_of(l));
    assert(l.skip("event:"@.len() as int) =~= e);
    assert(head.drop_first() =~= Seq::<Seq<char>>::empty());
    let s1 = ParserState { event: Some(e), data: Seq::empty() };
    assert(head[0] == l);
    assert(line_step(empty_state(), l) == (s1, None::<EventView>));
    assert(feed_lines(s1, head.drop_first()) == (s1, Seq::<EventView>::empty()));
    assert(Seq::<EventView>::empty() + Seq::<EventView>::empty() =~= Seq::<EventView>::empty());
    assert(feed_lines(empty_state(), head) == (s1, Seq::<EventView>::empty()));
    lemma_feed_lines_append(s1, mid, tail);
    lemma_data_lines(Some(e), Seq::empty(), ds);
    assert(Seq::<Seq<char>>::empty() + ds =~= ds);
    let s2 = ParserState { event: Some(e), data: ds };
    assert(trim(Seq::<char>::empty()) =~= Seq::<char>::empty());
    assert(tail.drop_first() =~= Seq::<Seq<char>>::empty());
    assert(tail[0] == Seq::<char>::empty());
    assert(line_step(s2, tail[0]) == (empty_state(), Some((e, join(ds, "\n"@)))));
    assert(feed_lines(empty_state(), tail.drop_first()) == (empty_state(), Seq::<EventView>::empty()));
    assert(seq![(e, join(ds, "\n"@))] + Seq::<EventView>::empty() =~= seq![(e, join(ds, "\n"@))]);
    assert(feed_lines(s2, tail) == (empty_state(), seq![(e, join(ds, "\n"@))]));
    assert(Seq::<EventView>::empty() + (Seq::<EventView>::empty() + seq![(e, join(ds, "\n"@))])
        =~= seq![(e, join(ds, "\n"@))]);
}

/// The lines of several blocks, one after the other.
pub open spec fn blocks_lines(blocks: Seq<(Seq<char>, Seq<Seq<char>>)>) -> Seq<Seq<char>>
    decreases blocks.len(),
{
    if blocks.len() == 0 {
        Seq::empty()
    } else {
        block_lines(blocks[0].0, blocks[0].1) + blocks_lines(blocks.drop_first())
    }
}

/// The events that several blocks write.
pub open spec fn blocks_events(blocks: Seq<(Seq<char>, Seq<Seq<char>>)>) -> Seq<EventView> {
    blocks.map_values(|b: (Seq<char>, Seq<Seq<char>>)| (b.0, join(b.1, "\n"@)))
}

/// Every type and payload line of every block is free of surrounding white
/// space.
pub open spec fn blocks_trimmed(blocks: Seq<(Seq<char>, Seq<Seq<char>>)>) -> bool {
    forall|k: int|
        0 <= k < blocks.len() ==> {
            &&& trim((#[trigger] blocks[k]).0) == blocks[k].0
            &&& forall|i: int| 0 <= i < blocks[k].1.len() ==> trim(#[trigger] blocks[k].1[i]) == blocks[k].1[i]
        }
}

/// Law: a stream of blocks is read back by a fresh parser as their events,
/// in order, and the parser ends empty.
pub proof fn law_blocks_round_trip(blocks: Seq<(Seq<char>, Seq<Seq<char>>)>)
    requires
        blocks_trimmed(blocks),
    ensures
        feed_lines(empty_state(), blocks_lines(blocks)) == (empty_state(), blocks_events(blocks)),
    decreases blocks.len(),
{
    if blocks.len() == 0 {
        assert(blocks_events(blocks) =~= Seq::<EventView>::empty());
    } else {
        let b = blocks[0];
        let rest = blocks.drop_first();
        assert(blocks_trimmed(rest)) by {
            assert forall|k: int| 0 <= k < rest.len() implies {
                &&& trim((#[trigger] rest[k]).0) == rest[k].0
                &&& forall|i: int| 0 <= i < rest[k].1.len() ==> trim(#[trigger] rest[k].1[i]) == rest[k].1[i]
            } by {
                assert(rest[k] == blocks[k + 1]);
            }
        }
        assert(trim(b.0) == b.0);
        assert(forall|i: int| 0 <= i < b.1.len() ==> trim(#[trigger] b.1[i]) == b.1[i]);
        law_block_round_trip(b.0, b.1);
        law_blocks_round_trip(rest);
        lemma_feed_lines_append(empty_state(), block_lines(b.0, b.1), blocks_lines(rest));
        assert(blocks_events(blocks) =~= seq![(b.0, join(b.1, "\n"@))] + blocks_events(rest));
    }
}

/// The line, trimmed, starts with `event:`.
pub open spec fn is_event_line(l: Seq<char>) -> bool {
    "event:"@.is_prefix_of(trim(l))
}

/// The line, trimmed, starts with `data:` (and not with `event:`).
pub open spec fn is_data_line(l: Seq<char>) -> bool {
    !is_event_line(l) && "data:"@.is_prefix_of(trim(l))
}

/// The type that an `event:` line gives: the rest of the line, trimmed.
pub open spec fn event_value(l: Seq<char>) -> Seq<char> {
    trim(trim(l).skip("event:"@.len() as int))
}

/// The payload that a `data:` line gives: the rest of the line, trimmed.
pub open spec fn data_value(l: Seq<char>) -> Seq<char> {
    trim(trim(l).skip("data:"@.len() as int))
}

/// The types given by the `event:` lines among `lines`, in order.
pub open spec fn event_types(lines: Seq<Seq<char>>) -> Seq<Seq<char>>
    decreases lines.len(),
{
    if lines.len() == 0 {
        Seq::empty()
    } else {
        let r = event_types(lines.drop_last());
        if is_event_line(lines.last()) {
            r.push(event_value(lines.last()))
        } else {
            r
        }
    }
}

/// The payloads given by the `data:` lines among `lines`, in order.
pub open spec fn data_values(lines: Seq<Seq<char>>) -> Seq<Seq<char>>
    decreases lines.len(),
{
    if lines.len() == 0 {
        Seq::empty()
    } else {
        let r = data_values(lines.drop_last());
        if is_data_line(lines.last()) {
            r.push(data_value(lines.last()))
        } else {
            r
        }
    }
}

/// What a parser has gathered from the lines of a block: the last type
/// given, if any, and every payload.
pub open spec fn gathered(lines: Seq<Seq<char>>) -> ParserState {
    ParserState {
        event: if event_types(lines).len() == 0 {
            None
        } else {
            Some(event_types(lines).last())
        },
        data: data_values(lines),
    }
}

/// Law: fed from a boundary (a new parser, or one that has just given an
/// event or been flushed) any lines that are not blank, the parser gives
/// nothing and gathers the last `event:` type and every `data:` payload;
/// comments and unknown fields add nothing. A blank line then gives
/// nothing when no type and no payload came, and otherwise one event: the
/// last type (or `message`), with the payloads joined by newlines. Either
/// way the parser is back at a boundary.
pub proof fn law_block_of_lines(lines: Seq<Seq<char>>, blank: Seq<char>)
    requires
        forall|i: int| 0 <= i < lines.len() ==> trim(#[trigger] lines[i]).len() > 0,
        trim(blank).len() == 0,
    ensures
        feed_lines(empty_state(), lines) == (gathered(lines), Seq::<EventView>::empty()),
        line_step(gathered(lines), blank) == (if event_types(lines).len() == 0 && data_values(
            lines,
        ).len() == 0 {
            (empty_state(), None)
        } else {
            (
                empty_state(),
                Some(
                    (
                        if event_types(lines).len() == 0 {
                            "message"@
                        } else {
                            event_types(lines).last()
                        },
                        join(data_values(lines), "\n"@),
                    ),
                ),
            )
        }),
    decreases lines.len(),
{
    if lines.len() == 0 {
        assert(gathered(lines) =~= empty_state());
    } else {
        let dl = lines.drop_last();
        let l = lines.last();
        assert forall|i: int| 0 <= i < dl.len() implies trim(#[trigger] dl[i]).len() > 0 by {
            assert(dl[i] == lines[i]);
        }
        law_block_of_lines(dl, blank);
        assert(lines =~= dl + seq![l]);
        lemma_feed_lines_append(empty_state(), dl, seq![l]);
        assert(trim(l).len() > 0);
        assert(seq![l][0] == l);
        assert(seq![l].drop_first() =~= Seq::<Seq<char>>::empty());
        assert(line_step(gathered(dl), l) == (gathered(lines), None::<EventView>));
        assert(feed_lines(gathered(lines), Seq::<Seq<char>>::empty()) == (
            gathered(lines),
            Seq::<EventView>::empty(),
        ));
        assert(opt_seq(None) + Seq::<EventView>::empty() =~= Seq::<EventView>::empty());
        assert(feed_lines(gathered(dl), seq![l]) == (gathered(lines), Seq::<EventView>::empty()));
        assert(Seq::<EventView>::empty() + Seq::<EventView>::empty() =~= Seq::<EventView>::empty());
    }
    if event_types(lines).len() == 0 && data_values(lines).len() == 0 {
        assert(gathered(lines) =~= empty_state());
    }
}

/// Law: a comment line (one that starts with `:`) leaves the parser as it
/// was and gives no event.
pub proof fn law_comment_ignored(st: ParserState, rest: Seq<char>)
    ensures
        line_step(st, seq![':'] + rest) == (st, None::<EventView>),
{
    reveal_strlit("event:");
    reveal_strlit("data:");
    let l = seq![':'] + rest;
    lemma_trim_start_shorter(l);
    assert(trim_start(l) == l);
    let t = trim(l);
    lemma_trim_end_prefix(l);
    assert(t.len() > 0 && t[0] == ':');
    lemma_first_differs("event:"@, t);
    lemma_first_differs("data:"@, t);
}

proof fn lemma_first_differs(p: Seq<char>, s: Seq<char>)
    requires
        p.len() > 0,
        s.len() > 0,
        p[0] != s[0],
    ensures
        !p.is_prefix_of(s),
{
    if p.is_prefix_of(s) {
        assert(s.subrange(0, p.len() as int)[0] == s[0]);
    }
}

proof fn lemma_trim_end_prefix(s: Seq<char>)
    requires
        s.len() > 0,
        !is_white_space(s[0]),
    ensures
        trim_end(s).len() > 0,
        trim_end(s)[0] == s[0],
    decreases s.len(),
{
    if s.len() > 1 && is_white_space(s.last()) {
        lemma_trim_end_prefix(s.drop_last());
    }
}

/// Law: once a block has been closed, closing again gives nothing; so a
/// second `flush` in a row returns `None`.
pub proof fn law_close_twice(st: ParserState)
    ensures
        close_block(close_block(st).0).1 is None,
{
}

} // verus!
