//! From the bytes of an output stream to what is buffered and called back.
//!
//! An [`OutputPump`] decodes and cuts. What it gives out it gives in pieces: the
//! text that goes into the buffer, unchanged, and the text for the callback.

use vstd::prelude::*;

use crate::decode;
use crate::decode::StreamDecoder;
use crate::shell::callbacks::CallbackMode;
use crate::text;

verus! {

broadcast use vstd::string::group_string_axioms;

/// The size of one read.
pub const READ_CHUNK_SIZE: usize = 8192;

/// How many milliseconds an unfinished line waits for its end.
pub const LINE_MODE_FLUSH_IDLE_MS: u64 = 80;

/// The number of bytes from which on an unfinished line is given out.
pub const LINE_MODE_FORCE_FLUSH: usize = 65536;

/// A message to the input side of a session.
#[derive(Debug)]
pub enum StdinMsg {
    /// Write this text.
    Data(String),
    /// Stop.
    Close,
    /// End the input.
    Eof,
    /// Set the terminal's size: columns, rows. A pipe has none.
    Resize(u16, u16),
}

/// A piece of output.
#[derive(Debug)]
pub struct Emission {
    /// What goes into the buffer.
    pub raw: String,
    /// What the callback gets.
    pub text: String,
}

impl View for Emission {
    type V = (Seq<char>, Seq<char>);

    open spec fn view(&self) -> (Seq<char>, Seq<char>) {
        (self.raw@, self.text@)
    }
}

/// The buffered and the called-back text of each piece.
pub open spec fn views(pieces: Seq<Emission>) -> Seq<(Seq<char>, Seq<char>)> {
    pieces.map_values(|e: Emission| e@)
}

/// All text that goes into the buffer, in order.
pub open spec fn raw_text(pieces: Seq<(Seq<char>, Seq<char>)>) -> Seq<char>
    decreases pieces.len(),
{
    if pieces.len() == 0 {
        Seq::empty()
    } else {
        raw_text(pieces.drop_last()) + pieces.last().0
    }
}

/// `line` without the line ends at its end.
pub open spec fn without_line_end(line: Seq<char>) -> Seq<char>
    decreases line.len(),
{
    if line.len() > 0 && (line.last() == '\n' || line.last() == '\r') {
        without_line_end(line.drop_last())
    } else {
        line
    }
}

/// The position of the first line end in `s` from `i` on, or the length of `s`.
pub open spec fn line_end(s: Seq<char>, i: int) -> int
    decreases s.len() - i,
{
    if i >= s.len() {
        s.len() as int
    } else if s[i] == '\n' {
        i
    } else {
        line_end(s, i + 1)
    }
}

/// The pieces that come out of the text `carry` and what stays behind: every
/// finished line, and an unfinished one that has grown too long.
pub open spec fn drained(carry: Seq<char>) -> (Seq<(Seq<char>, Seq<char>)>, Seq<char>)
    decreases carry.len(),
{
    let p = line_end(carry, 0);
    if 0 <= p < carry.len() {
        let line = carry.take(p + 1);
        let rest = drained(carry.skip(p + 1));
        (seq![(line, without_line_end(line))] + rest.0, rest.1)
    } else if text::byte_count(carry) >= LINE_MODE_FORCE_FLUSH {
        (seq![(carry, carry)], Seq::empty())
    } else {
        (Seq::empty(), carry)
    }
}

/// A piece that is given out as it is; none for the empty text.
pub open spec fn emitted(chunk: Seq<char>) -> Seq<(Seq<char>, Seq<char>)> {
    if chunk.len() == 0 {
        Seq::empty()
    } else {
        seq![(chunk, chunk)]
    }
}

/// Gives out `chunk` as it is; the empty text is no piece.
pub fn emit(chunk: String) -> (r: Option<Emission>)
    ensures
        r is None <==> chunk@.len() == 0,
        r matches Some(e) ==> e@ == (chunk@, chunk@),
{
    if chunk.as_str().is_empty() {
        None
    } else {
        let text = chunk.clone();
        Some(Emission { raw: chunk, text })
    }
}

/// The characters `from..to` of `v` without the line ends at their end.
fn trimmed_line(v: &Vec<char>, from: usize, to: usize) -> (r: String)
    requires
        from <= to <= v@.len(),
    ensures
        r@ == without_line_end(v@.subrange(from as int, to as int)),
{
    let mut end: usize = to;
    while from < end && (v[end - 1] == '\n' || v[end - 1] == '\r')
        invariant
            from <= end <= to <= v@.len(),
            without_line_end(v@.subrange(from as int, to as int)) == without_line_end(
                v@.subrange(from as int, end as int),
            ),
        decreases end,
    {
        proof {
            let s = v@.subrange(from as int, end as int);
            assert(s.drop_last() == v@.subrange(from as int, end - 1));
            assert(s.last() == v@[end - 1]);
        }
        end = end - 1;
    }
    proof {
        let s = v@.subrange(from as int, end as int);
        if s.len() > 0 {
            assert(s.last() == v@[end - 1]);
        }
    }
    text::string_from(v, from, end)
}

/// Takes from `carry` every finished line, and an unfinished one that has grown
/// too long.
pub fn drain_lines(carry: &mut String) -> (r: Vec<Emission>)
    ensures
        views(r@) == drained(old(carry)@).0,
        final(carry)@ == drained(old(carry)@).1,
{
    let v: Vec<char> = text::chars_of(carry.as_str());
    let n: usize = v.len();
    let mut r: Vec<Emission> = Vec::new();
    let mut start: usize = 0;
    let mut i: usize = 0;
    assert(v@.skip(0) == v@);
    assert(views(r@) == Seq::<(Seq<char>, Seq<char>)>::empty());
    while i < n
        invariant
            n == v@.len(),
            v@ == old(carry)@,
            start <= i <= n,
            line_end(v@.skip(start as int), 0) == line_end(v@.skip(start as int), i - start),
            drained(v@).0 == views(r@) + drained(v@.skip(start as int)).0,
            drained(v@).1 == drained(v@.skip(start as int)).1,
        decreases n - i,
    {
        let ghost s = v@.skip(start as int);
        if v[i] == '\n' {
            let raw: String = text::string_from(&v, start, i + 1);
            let text: String = trimmed_line(&v, start, i + 1);
            let ghost before = views(r@);
            let e = Emission { raw, text };
            let ghost ev = e@;
            r.push(e);
            proof {
                assert(s.take(i - start + 1) == v@.subrange(start as int, i + 1));
                assert(s.skip(i - start + 1) == v@.skip(i + 1));
                assert(views(r@) == before.push(ev));
                assert(before + (seq![ev] + drained(v@.skip(i + 1)).0) == before.push(ev)
                    + drained(v@.skip(i + 1)).0);
            }
            start = i + 1;
        }
        i = i + 1;
    }
    let rest: String = text::string_from(&v, start, n);
    let ghost s = v@.skip(start as int);
    assert(rest@ == s);
    if text::byte_len(rest.as_str()) >= LINE_MODE_FORCE_FLUSH {
        let ghost before = views(r@);
        let text = rest.clone();
        r.push(Emission { raw: rest, text });
        proof {
            assert(views(r@) == before.push((s, s)));
            assert(before + seq![(s, s)] == before.push((s, s)));
        }
        *carry = String::new();
    } else {
        proof {
            assert(views(r@) + Seq::<(Seq<char>, Seq<char>)>::empty() == views(r@));
        }
        *carry = rest;
    }
    r
}

/// What comes out of newly decoded text, and the unfinished line that stays.
pub open spec fn dispatched(mode: CallbackMode, decoded: Seq<char>, carry: Seq<char>) -> (
    Seq<(Seq<char>, Seq<char>)>,
    Seq<char>,
) {
    if decoded.len() == 0 {
        (Seq::empty(), carry)
    } else {
        match mode {
            CallbackMode::Raw => (emitted(decoded), carry),
            CallbackMode::Line => drained(carry + decoded),
        }
    }
}

/// What comes out at the end of a stream: all that is left.
pub open spec fn finished(mode: CallbackMode, decoded: Seq<char>, carry: Seq<char>) -> Seq<
    (Seq<char>, Seq<char>),
> {
    match mode {
        CallbackMode::Raw => emitted(decoded),
        CallbackMode::Line => drained(carry + decoded).0 + emitted(drained(carry + decoded).1),
    }
}

/// Decodes one output stream and cuts it into pieces.
pub struct OutputPump {
    decoder: StreamDecoder,
    decoded: String,
    carry: String,
    mode: CallbackMode,
    eof_decoded: bool,
}

impl OutputPump {
    /// Bytes kept back by the decoder.
    pub closed spec fn pending(&self) -> Seq<u8> {
        self.decoder@
    }

    /// Decoded text that is not yet dispatched.
    pub closed spec fn fresh(&self) -> Seq<char> {
        self.decoded@
    }

    /// The unfinished line.
    pub closed spec fn carried(&self) -> Seq<char> {
        self.carry@
    }

    /// How the stream is cut.
    pub closed spec fn cut(&self) -> CallbackMode {
        self.mode
    }

    /// Whether the decoder has been told that the stream is over.
    pub closed spec fn ended(&self) -> bool {
        self.eof_decoded
    }

    /// The stream at this moment, of which `given` has been given out.
    pub open spec fn state(&self, given: Seq<(Seq<char>, Seq<char>)>) -> StreamState {
        StreamState { pieces: given, carry: self.carried(), pending: self.pending() }
    }

    /// The decoded text once the decoder is told that the stream is over.
    pub open spec fn fresh_at_eof(&self) -> Seq<char> {
        if self.ended() {
            self.fresh()
        } else {
            self.fresh() + decode::tail(self.pending())
        }
    }

    /// A pump for a stream of which nothing has been read.
    pub fn new(mode: CallbackMode) -> (r: OutputPump)
        ensures
            r.cut() == mode,
            r.pending() == Seq::<u8>::empty(),
            r.fresh() == Seq::<char>::empty(),
            r.carried() == Seq::<char>::empty(),
            !r.ended(),
    {
        OutputPump {
            decoder: StreamDecoder::new(),
            decoded: String::new(),
            carry: String::new(),
            mode,
            eof_decoded: false,
        }
    }

    /// Whether the stream is cut into lines, so that idle time matters.
    pub fn is_line_mode(&self) -> (r: bool)
        ensures
            r == (self.cut() == CallbackMode::Line),
    {
        self.mode == CallbackMode::Line
    }

    /// Decodes the bytes of a read and shows the text not yet dispatched.
    pub fn decode(&mut self, bytes: &[u8]) -> (r: &str)
        ensures
            r@ == final(self).fresh(),
            final(self).fresh() == old(self).fresh() + decode::settled(old(self).pending() + bytes@),
            final(self).pending() == decode::unsettled(old(self).pending() + bytes@),
            final(self).carried() == old(self).carried(),
            final(self).cut() == old(self).cut(),
            final(self).ended() == old(self).ended(),
    {
        self.decoder.feed(bytes, &mut self.decoded);
        self.decoded.as_str()
    }

    /// Tells the decoder that the stream is over, once, and shows the text not
    /// yet dispatched.
    pub fn decode_eof(&mut self) -> (r: &str)
        ensures
            r@ == final(self).fresh(),
            final(self).fresh() == old(self).fresh_at_eof(),
            final(self).pending() == (if old(self).ended() {
                old(self).pending()
            } else {
                Seq::<u8>::empty()
            }),
            final(self).carried() == old(self).carried(),
            final(self).cut() == old(self).cut(),
            final(self).ended(),
    {
        if !self.eof_decoded {
            self.decoder.finish(&mut self.decoded);
            self.eof_decoded = true;
        }
        self.decoded.as_str()
    }

    /// Gives out what the decoded text completes.
    pub fn dispatch(&mut self) -> (r: Vec<Emission>)
        ensures
            views(r@) == dispatched(old(self).cut(), old(self).fresh(), old(self).carried()).0,
            final(self).carried() == dispatched(
                old(self).cut(),
                old(self).fresh(),
                old(self).carried(),
            ).1,
            final(self).fresh() == Seq::<char>::empty(),
            final(self).pending() == old(self).pending(),
            final(self).cut() == old(self).cut(),
            final(self).ended() == old(self).ended(),
    {
        if self.decoded.as_str().is_empty() {
            let r: Vec<Emission> = Vec::new();
            assert(views(r@) == Seq::<(Seq<char>, Seq<char>)>::empty());
            return r;
        }
        match self.mode {
            CallbackMode::Raw => {
                let chunk: String = self.decoded.clone();
                self.decoded = String::new();
                pieces(emit(chunk))
            },
            CallbackMode::Line => {
                self.carry.append(self.decoded.as_str());
                self.decoded = String::new();
                drain_lines(&mut self.carry)
            },
        }
    }

    /// Decodes the bytes of a read and gives out what they complete.
    pub fn feed(&mut self, bytes: &[u8]) -> (r: Vec<Emission>)
        ensures
            views(r@) == dispatched(
                old(self).cut(),
                old(self).fresh() + decode::settled(old(self).pending() + bytes@),
                old(self).carried(),
            ).0,
            final(self).carried() == dispatched(
                old(self).cut(),
                old(self).fresh() + decode::settled(old(self).pending() + bytes@),
                old(self).carried(),
            ).1,
            final(self).fresh() == Seq::<char>::empty(),
            final(self).pending() == decode::unsettled(old(self).pending() + bytes@),
            final(self).cut() == old(self).cut(),
            final(self).ended() == old(self).ended(),
    {
        self.decode(bytes);
        self.dispatch()
    }

    /// Gives out an unfinished line that has waited long enough.
    pub fn flush_idle(&mut self) -> (r: Vec<Emission>)
        ensures
            old(self).cut() == CallbackMode::Line ==> views(r@) == emitted(old(self).carried())
                && final(self).carried() == Seq::<char>::empty(),
            old(self).cut() == CallbackMode::Raw ==> r@.len() == 0 && final(self).carried() == old(
                self,
            ).carried(),
            final(self).fresh() == old(self).fresh(),
            final(self).pending() == old(self).pending(),
            final(self).cut() == old(self).cut(),
            final(self).ended() == old(self).ended(),
    {
        if self.mode == CallbackMode::Line {
            let chunk: String = self.carry.clone();
            self.carry = String::new();
            pieces(emit(chunk))
        } else {
            Vec::new()
        }
    }

    /// Ends the stream and gives out all that is left of it.
    pub fn finish(&mut self) -> (r: Vec<Emission>)
        ensures
            views(r@) == finished(old(self).cut(), old(self).fresh_at_eof(), old(self).carried()),
            final(self).fresh() == Seq::<char>::empty(),
            old(self).cut() == CallbackMode::Line ==> final(self).carried() == Seq::<char>::empty(),
            old(self).cut() == CallbackMode::Raw ==> final(self).carried() == old(self).carried(),
            final(self).pending() == (if old(self).ended() {
                old(self).pending()
            } else {
                Seq::<u8>::empty()
            }),
            final(self).cut() == old(self).cut(),
            final(self).ended(),
    {
        self.decode_eof();
        match self.mode {
            CallbackMode::Raw => {
                let chunk: String = self.decoded.clone();
                self.decoded = String::new();
                pieces(emit(chunk))
            },
            CallbackMode::Line => {
                self.carry.append(self.decoded.as_str());
                self.decoded = String::new();
                let mut r: Vec<Emission> = drain_lines(&mut self.carry);
                let chunk: String = self.carry.clone();
                self.carry = String::new();
                let ghost before = views(r@);
                match emit(chunk) {
                    Some(e) => {
                        let ghost ev = e@;
                        r.push(e);
                        proof {
                            assert(views(r@) == before.push(ev));
                            assert(before + seq![ev] == before.push(ev));
                        }
                    },
                    None => {
                        proof {
                            assert(before + Seq::<(Seq<char>, Seq<char>)>::empty() == before);
                        }
                    },
                }
                r
            },
        }
    }
}

/// The list of at most one piece.
fn pieces(e: Option<Emission>) -> (r: Vec<Emission>)
    ensures
        e matches Some(p) ==> views(r@) == seq![p@],
        e is None ==> views(r@) == Seq::<(Seq<char>, Seq<char>)>::empty() && r@.len() == 0,
{
    let mut r: Vec<Emission> = Vec::new();
    match e {
        Some(p) => {
            let ghost v = p@;
            r.push(p);
            assert(views(r@) == seq![v]);
        },
        None => {
            assert(views(r@) == Seq::<(Seq<char>, Seq<char>)>::empty());
        },
    }
    r
}

/// What happens to the reader of a piped stream.
#[derive(Debug)]
pub enum ReadEvent {
    /// A read brought these bytes; none at the end of the stream.
    Read(Vec<u8>),
    /// A read failed.
    Failed,
    /// Nothing came for a while.
    Idle,
}

/// What the reader of a stream does next.
#[derive(Debug)]
pub struct ReadStep {
    /// Pieces to deliver, in order.
    pub pieces: Vec<Emission>,
    /// Whether the reader stops.
    pub done: bool,
}

/// One step of the reader of a piped stream. At the end of the stream, also by a
/// failed read, all that is left is given out.
pub fn read_stream(pump: &mut OutputPump, event: ReadEvent) -> (r: ReadStep)
    ensures
        final(pump).cut() == old(pump).cut(),
        match event {
            ReadEvent::Read(bytes) if bytes@.len() > 0 => {
                &&& !r.done
                &&& views(r.pieces@) == dispatched(
                    old(pump).cut(),
                    old(pump).fresh() + decode::settled(old(pump).pending() + bytes@),
                    old(pump).carried(),
                ).0
                &&& final(pump).carried() == dispatched(
                    old(pump).cut(),
                    old(pump).fresh() + decode::settled(old(pump).pending() + bytes@),
                    old(pump).carried(),
                ).1
                &&& final(pump).fresh() == Seq::<char>::empty()
                &&& final(pump).pending() == decode::unsettled(old(pump).pending() + bytes@)
                &&& final(pump).ended() == old(pump).ended()
            },
            ReadEvent::Read(_) | ReadEvent::Failed => {
                &&& r.done
                &&& views(r.pieces@) == finished(
                    old(pump).cut(),
                    old(pump).fresh_at_eof(),
                    old(pump).carried(),
                )
                &&& final(pump).ended()
                &&& final(pump).fresh() == Seq::<char>::empty()
            },
            ReadEvent::Idle => {
                &&& !r.done
                &&& final(pump).fresh() == old(pump).fresh()
                &&& final(pump).pending() == old(pump).pending()
                &&& final(pump).ended() == old(pump).ended()
                &&& match old(pump).cut() {
                    CallbackMode::Line => views(r.pieces@) == emitted(old(pump).carried())
                        && final(pump).carried() == Seq::<char>::empty(),
                    CallbackMode::Raw => r.pieces@.len() == 0 && final(pump).carried() == old(
                        pump,
                    ).carried(),
                }
            },
        },
        !r.done && old(pump).fresh().len() == 0 ==> forall|given: Seq<(Seq<char>, Seq<char>)>|
            #[trigger] after(old(pump).cut(), old(pump).state(given), stream_event(event))
                == final(pump).state(given + views(r.pieces@)),
{
    match event {
        ReadEvent::Read(bytes) => {
            if bytes.len() == 0 {
                let pieces = pump.finish();
                ReadStep { pieces, done: true }
            } else {
                let pieces = pump.feed(bytes.as_slice());
                proof {
                    let text = decode::settled(old(pump).pending() + bytes@);
                    if old(pump).fresh().len() == 0 {
                        assert(old(pump).fresh() + text == text);
                    }
                }
                ReadStep { pieces, done: false }
            }
        },
        ReadEvent::Failed => {
            let pieces = pump.finish();
            ReadStep { pieces, done: true }
        },
        ReadEvent::Idle => {
            let pieces = pump.flush_idle();
            proof {
                if pieces@.len() == 0 {
                    assert forall|given: Seq<(Seq<char>, Seq<char>)>| given + views(pieces@)
                        == given by {
                        assert(given + views(pieces@) == given);
                    }
                }
            }
            ReadStep { pieces, done: false }
        },
    }
}

/// What a stream goes through before its end.
pub enum StreamEvent {
    /// Bytes were read.
    Bytes(Seq<u8>),
    /// Nothing came for a while.
    Idle,
}

/// What a reader that goes on has seen of the stream.
pub open spec fn stream_event(event: ReadEvent) -> StreamEvent {
    match event {
        ReadEvent::Read(bytes) => StreamEvent::Bytes(bytes@),
        _ => StreamEvent::Idle,
    }
}

/// What a pump has given out, the unfinished line and the bytes kept back.
pub struct StreamState {
    pub pieces: Seq<(Seq<char>, Seq<char>)>,
    pub carry: Seq<char>,
    pub pending: Seq<u8>,
}

/// What one event makes of a stream.
pub open spec fn after(mode: CallbackMode, state: StreamState, event: StreamEvent) -> StreamState {
    match event {
        StreamEvent::Bytes(bytes) => {
            let all = state.pending + bytes;
            let out = dispatched(mode, decode::settled(all), state.carry);
            StreamState {
                pieces: state.pieces + out.0,
                carry: out.1,
                pending: decode::unsettled(all),
            }
        },
        StreamEvent::Idle => match mode {
            CallbackMode::Line => StreamState {
                pieces: state.pieces + emitted(state.carry),
                carry: Seq::empty(),
                pending: state.pending,
            },
            CallbackMode::Raw => state,
        },
    }
}

/// What a new stream becomes by `events`.
pub open spec fn run(mode: CallbackMode, events: Seq<StreamEvent>) -> StreamState
    decreases events.len(),
{
    if events.len() == 0 {
        StreamState { pieces: Seq::empty(), carry: Seq::empty(), pending: Seq::empty() }
    } else {
        after(mode, run(mode, events.drop_last()), events.last())
    }
}

/// All pieces of a stream that has gone through `events` and is over.
pub open spec fn whole_run(mode: CallbackMode, events: Seq<StreamEvent>) -> Seq<
    (Seq<char>, Seq<char>),
> {
    let state = run(mode, events);
    state.pieces + finished(mode, decode::tail(state.pending), state.carry)
}

/// All bytes that `events` brought.
pub open spec fn bytes_read(events: Seq<StreamEvent>) -> Seq<u8>
    decreases events.len(),
{
    if events.len() == 0 {
        Seq::empty()
    } else {
        match events.last() {
            StreamEvent::Bytes(bytes) => bytes_read(events.drop_last()) + bytes,
            StreamEvent::Idle => bytes_read(events.drop_last()),
        }
    }
}

proof fn lemma_raw_text_append(
    a: Seq<(Seq<char>, Seq<char>)>,
    b: Seq<(Seq<char>, Seq<char>)>,
)
    ensures
        raw_text(a + b) == raw_text(a) + raw_text(b),
    decreases b.len(),
{
    if b.len() == 0 {
        assert(a + b == a);
        assert(raw_text(a) + Seq::<char>::empty() == raw_text(a));
    } else {
        lemma_raw_text_append(a, b.drop_last());
        assert((a + b).drop_last() == a + b.drop_last());
        assert(raw_text(a) + (raw_text(b.drop_last()) + b.last().0) == (raw_text(a) + raw_text(
            b.drop_last(),
        )) + b.last().0);
    }
}

proof fn lemma_raw_text_one(p: (Seq<char>, Seq<char>))
    ensures
        raw_text(seq![p]) == p.0,
{
    assert(seq![p].drop_last() == Seq::<(Seq<char>, Seq<char>)>::empty());
    assert(raw_text(seq![p].drop_last()) == Seq::<char>::empty());
    assert(Seq::<char>::empty() + p.0 == p.0);
}

proof fn lemma_emitted(chunk: Seq<char>)
    ensures
        raw_text(emitted(chunk)) == chunk,
{
    if chunk.len() > 0 {
        lemma_raw_text_one((chunk, chunk));
    } else {
        assert(chunk == Seq::<char>::empty());
    }
}

/// Cutting into lines loses nothing: the pieces and what stays behind are the
/// text, in order.
pub proof fn draining_keeps_all_text(carry: Seq<char>)
    ensures
        raw_text(drained(carry).0) + drained(carry).1 == carry,
    decreases carry.len(),
{
    let p = line_end(carry, 0);
    if 0 <= p < carry.len() {
        let line = carry.take(p + 1);
        let rest = carry.skip(p + 1);
        let first = (line, without_line_end(line));
        draining_keeps_all_text(rest);
        lemma_raw_text_append(seq![first], drained(rest).0);
        lemma_raw_text_one(first);
        assert((line + raw_text(drained(rest).0)) + drained(rest).1 == line + (raw_text(
            drained(rest).0,
        ) + drained(rest).1));
        assert(line + rest == carry);
    } else if text::byte_count(carry) >= LINE_MODE_FORCE_FLUSH {
        lemma_raw_text_one((carry, carry));
        assert(carry + Seq::<char>::empty() == carry);
    } else {
        assert(Seq::<char>::empty() + carry == carry);
    }
}

proof fn lemma_run(mode: CallbackMode, events: Seq<StreamEvent>)
    ensures
        raw_text(run(mode, events).pieces) + run(mode, events).carry == decode::settled(
            bytes_read(events),
        ),
        run(mode, events).pending == decode::unsettled(bytes_read(events)),
        mode == CallbackMode::Raw ==> run(mode, events).carry == Seq::<char>::empty(),
    decreases events.len(),
{
    let e = Seq::<char>::empty();
    if events.len() == 0 {
        assert(e + e == e);
    } else {
        lemma_run(mode, events.drop_last());
        let state = run(mode, events.drop_last());
        let before = raw_text(state.pieces);
        match events.last() {
            StreamEvent::Bytes(bytes) => {
                let old_bytes = bytes_read(events.drop_last());
                let all = state.pending + bytes;
                let text = decode::settled(all);
                decode::decoding_is_incremental(old_bytes, bytes);
                let out = dispatched(mode, text, state.carry);
                lemma_raw_text_append(state.pieces, out.0);
                if text.len() == 0 {
                    assert(text == e);
                    assert(before + e == before);
                    assert(decode::settled(old_bytes) + e == decode::settled(old_bytes));
                } else {
                    match mode {
                        CallbackMode::Raw => {
                            lemma_emitted(text);
                            assert(before + e == before);
                            assert((before + text) + e == before + text);
                        },
                        CallbackMode::Line => {
                            draining_keeps_all_text(state.carry + text);
                            assert((before + raw_text(out.0)) + out.1 == before + (raw_text(out.0)
                                + out.1));
                            assert((before + state.carry) + text == before + (state.carry + text));
                        },
                    }
                }
            },
            StreamEvent::Idle => match mode {
                CallbackMode::Line => {
                    lemma_raw_text_append(state.pieces, emitted(state.carry));
                    lemma_emitted(state.carry);
                    assert((before + state.carry) + e == before + state.carry);
                },
                CallbackMode::Raw => {},
            },
        }
    }
}

/// What a stream puts into the buffer is the text of its bytes, complete and in
/// order, in whatever reads they came, whenever it was idle, and however it is
/// cut for the callbacks.
pub proof fn buffer_gets_the_decoded_stream(mode: CallbackMode, events: Seq<StreamEvent>)
    ensures
        raw_text(whole_run(mode, events)) == decode::decoded(bytes_read(events)),
{
    lemma_run(mode, events);
    let state = run(mode, events);
    let before = raw_text(state.pieces);
    let last = decode::tail(state.pending);
    let out = finished(mode, last, state.carry);
    lemma_raw_text_append(state.pieces, out);
    match mode {
        CallbackMode::Raw => {
            lemma_emitted(last);
            assert(before + state.carry == before);
        },
        CallbackMode::Line => {
            let all = state.carry + last;
            draining_keeps_all_text(all);
            lemma_raw_text_append(drained(all).0, emitted(drained(all).1));
            lemma_emitted(drained(all).1);
            assert(before + (state.carry + last) == (before + state.carry) + last);
        },
    }
}

/// A piece that is one finished line: the callback gets it without its line end.
pub open spec fn is_line(p: (Seq<char>, Seq<char>)) -> bool {
    &&& p.0.len() > 0
    &&& p.0.last() == '\n'
    &&& forall|k: int| 0 <= k < p.0.len() - 1 ==> p.0[k] != '\n'
    &&& p.1 == without_line_end(p.0)
}

/// A piece of an unfinished line that has grown too long: the callback gets it
/// as it is.
pub open spec fn is_overlong(p: (Seq<char>, Seq<char>)) -> bool {
    &&& p.1 == p.0
    &&& text::byte_count(p.0) >= LINE_MODE_FORCE_FLUSH
    &&& forall|k: int| 0 <= k < p.0.len() ==> p.0[k] != '\n'
}

proof fn lemma_line_end(s: Seq<char>, i: int)
    requires
        0 <= i <= s.len(),
    ensures
        i <= line_end(s, i) <= s.len(),
        line_end(s, i) < s.len() ==> s[line_end(s, i)] == '\n',
        forall|k: int| i <= k < line_end(s, i) ==> s[k] != '\n',
    decreases s.len() - i,
{
    if i < s.len() && s[i] != '\n' {
        lemma_line_end(s, i + 1);
    }
}

/// Text is cut at line ends and nowhere else, but for a line that is too long;
/// what stays behind is less than such a line and has no line end in it.
pub proof fn drained_pieces_are_lines(carry: Seq<char>)
    ensures
        forall|i: int|
            0 <= i < drained(carry).0.len() ==> is_line(#[trigger] drained(carry).0[i])
                || is_overlong(drained(carry).0[i]),
        forall|k: int| 0 <= k < drained(carry).1.len() ==> drained(carry).1[k] != '\n',
        text::byte_count(drained(carry).1) < LINE_MODE_FORCE_FLUSH,
    decreases carry.len(),
{
    lemma_line_end(carry, 0);
    let p = line_end(carry, 0);
    if p < carry.len() {
        let line = carry.take(p + 1);
        let rest = carry.skip(p + 1);
        drained_pieces_are_lines(rest);
        let d = drained(carry).0;
        assert forall|i: int| 0 <= i < d.len() implies is_line(#[trigger] d[i]) || is_overlong(
            d[i],
        ) by {
            if i == 0 {
                assert(is_line((line, without_line_end(line))));
            } else {
                assert(d[i] == drained(rest).0[i - 1]);
            }
        }
    } else if text::byte_count(carry) >= LINE_MODE_FORCE_FLUSH {
        assert(is_overlong((carry, carry)));
    }
}

/// What a line callback gets of a finished line has no line end in it, and is
/// the line but for its end: nothing else is cut off.
pub proof fn line_text_has_no_line_end(p: (Seq<char>, Seq<char>))
    requires
        is_line(p),
    ensures
        p.1.len() < p.0.len(),
        p.1 == p.0.take(p.1.len() as int),
        forall|k: int| 0 <= k < p.1.len() ==> p.1[k] != '\n',
        p.1.len() > 0 ==> p.1.last() != '\r',
        forall|k: int| p.1.len() <= k < p.0.len() ==> p.0[k] == '\r' || p.0[k] == '\n',
{
    lemma_without_line_end(p.0);
    lemma_without_line_end(p.0.drop_last());
}

proof fn lemma_without_line_end(s: Seq<char>)
    ensures
        without_line_end(s).len() <= s.len(),
        without_line_end(s) == s.take(without_line_end(s).len() as int),
        without_line_end(s).len() > 0 ==> without_line_end(s).last() != '\r'
            && without_line_end(s).last() != '\n',
        forall|k: int|
            without_line_end(s).len() <= k < s.len() ==> s[k] == '\r' || s[k] == '\n',
    decreases s.len(),
{
    if s.len() > 0 && (s.last() == '\n' || s.last() == '\r') {
        lemma_without_line_end(s.drop_last());
        assert(forall|k: int| 0 <= k < s.len() - 1 ==> s.drop_last()[k] == s[k]);
        let n = without_line_end(s).len() as int;
        assert(s.drop_last().take(n) == s.take(n));
    } else {
        assert(s.take(s.len() as int) == s);
    }
}

/// A piece that is a whole line: it ends with the only line feed in it, and the
/// callback gets all of it but the carriage returns and line feeds at its end.
pub open spec fn is_whole_line(p: (Seq<char>, Seq<char>)) -> bool {
    let n = p.1.len() as int;
    &&& n < p.0.len()
    &&& p.1 == p.0.take(n)
    &&& forall|k: int| n <= k < p.0.len() ==> p.0[k] == '\r' || p.0[k] == '\n'
    &&& n > 0 ==> p.1[n - 1] != '\r' && p.1[n - 1] != '\n'
    &&& p.0[p.0.len() - 1] == '\n'
    &&& forall|k: int| 0 <= k < p.0.len() - 1 ==> p.0[k] != '\n'
}

/// A piece that is the start or the middle of a line: it has no line feed in it, and
/// the callback gets it as it is.
pub open spec fn is_part_of_a_line(p: (Seq<char>, Seq<char>)) -> bool {
    &&& p.1 == p.0
    &&& p.0.len() > 0
    &&& forall|k: int| 0 <= k < p.0.len() ==> p.0[k] != '\n'
}

/// Text that is cut into lines comes out as whole lines, but for a part of 65536 bytes
/// or more; what stays behind is a shorter part, with no line feed in it. So every
/// line comes out with the read that ends it.
pub proof fn lines_come_out_whole(carry: Seq<char>)
    ensures
        forall|i: int|
            0 <= i < drained(carry).0.len() ==> is_whole_line(#[trigger] drained(carry).0[i]) || (
            is_part_of_a_line(drained(carry).0[i]) && vstd::utf8::encode_utf8(
                drained(carry).0[i].0,
            ).len() >= 65536),
        !drained(carry).1.contains('\n'),
        vstd::utf8::encode_utf8(drained(carry).1).len() < 65536,
{
    drained_pieces_are_lines(carry);
    let d = drained(carry).0;
    assert forall|i: int| 0 <= i < d.len() implies is_whole_line(#[trigger] d[i]) || (
    is_part_of_a_line(d[i]) && vstd::utf8::encode_utf8(d[i].0).len() >= 65536) by {
        let p = d[i];
        if is_line(p) {
            line_text_has_no_line_end(p);
            lemma_without_line_end(p.0);
            assert(is_whole_line(p));
        } else {
            assert(is_overlong(p));
            assert(p.0.len() > 0) by {
                if p.0.len() == 0 {
                    assert(vstd::utf8::encode_utf8(p.0).len() == 0);
                }
            }
        }
    }
}

/// The texts of the pieces behind each other are the text for the buffer.
pub proof fn buffered_text_is_all_pieces(pieces: Seq<(Seq<char>, Seq<char>)>)
    ensures
        raw_text(pieces) == pieces.map_values(|p: (Seq<char>, Seq<char>)| p.0).flatten(),
    decreases pieces.len(),
{
    let texts = pieces.map_values(|p: (Seq<char>, Seq<char>)| p.0);
    if pieces.len() > 0 {
        let before = pieces.drop_last();
        buffered_text_is_all_pieces(before);
        let texts_before = before.map_values(|p: (Seq<char>, Seq<char>)| p.0);
        assert(texts == texts_before.push(pieces.last().0));
        texts_before.lemma_flatten_push(pieces.last().0);
    }
}

/// Without cutting into lines, a read is given out at once and as one piece, as it
/// is, to the buffer and to the callback; nothing stays behind, and nothing is given
/// out for a read that brings no text.
pub proof fn raw_output_comes_as_it_was_read(text: Seq<char>, carry: Seq<char>)
    ensures
        dispatched(CallbackMode::Raw, text, carry).1 == carry,
        text.len() > 0 ==> dispatched(CallbackMode::Raw, text, carry).0 == seq![(text, text)],
        text.len() == 0 ==> dispatched(CallbackMode::Raw, text, carry).0.len() == 0,
        text.len() > 0 ==> finished(CallbackMode::Raw, text, carry) == seq![(text, text)],
        text.len() == 0 ==> finished(CallbackMode::Raw, text, carry).len() == 0,
        text.len() > 0 ==> emitted(text) == seq![(text, text)],
        text.len() == 0 ==> emitted(text).len() == 0,
{
}

/// What a read does in line mode: what was unfinished and the new text come out in
/// whole lines, and the rest waits; at the end of the stream nothing waits.
pub proof fn lines_lose_nothing(text: Seq<char>, carry: Seq<char>)
    requires
        !carry.contains('\n'),
        vstd::utf8::encode_utf8(carry).len() < 65536,
    ensures
        ({
            let (pieces, rest) = dispatched(CallbackMode::Line, text, carry);
            &&& raw_text(pieces) + rest == carry + text
            &&& !rest.contains('\n')
            &&& vstd::utf8::encode_utf8(rest).len() < 65536
            &&& forall|i: int|
                0 <= i < pieces.len() ==> is_whole_line(#[trigger] pieces[i])
                    || is_part_of_a_line(pieces[i])
        }),
        raw_text(finished(CallbackMode::Line, text, carry)) == carry + text,
{
    let all = carry + text;
    draining_keeps_all_text(all);
    lines_come_out_whole(all);
    lemma_raw_text_append(drained(all).0, emitted(drained(all).1));
    lemma_emitted(drained(all).1);
    if text.len() == 0 {
        assert(all == carry);
        assert(Seq::<char>::empty() + carry == carry);
    }
}

proof fn lemma_line_run(events: Seq<StreamEvent>)
    ensures
        ({
            let state = run(CallbackMode::Line, events);
            &&& !state.carry.contains('\n')
            &&& vstd::utf8::encode_utf8(state.carry).len() < 65536
            &&& forall|i: int|
                0 <= i < state.pieces.len() ==> is_whole_line(#[trigger] state.pieces[i])
                    || is_part_of_a_line(state.pieces[i])
        }),
    decreases events.len(),
{
    if events.len() > 0 {
        lemma_line_run(events.drop_last());
        let before = run(CallbackMode::Line, events.drop_last());
        let state = run(CallbackMode::Line, events);
        let out = match events.last() {
            StreamEvent::Bytes(bytes) => {
                let text = decode::settled(before.pending + bytes);
                lines_lose_nothing(text, before.carry);
                dispatched(CallbackMode::Line, text, before.carry).0
            },
            StreamEvent::Idle => {
                lemma_part(before.carry);
                emitted(before.carry)
            },
        };
        assert(state.pieces == before.pieces + out);
        assert forall|i: int| 0 <= i < state.pieces.len() implies is_whole_line(
            #[trigger] state.pieces[i],
        ) || is_part_of_a_line(state.pieces[i]) by {
            if i < before.pieces.len() {
                assert(state.pieces[i] == before.pieces[i]);
            } else {
                assert(state.pieces[i] == out[i - before.pieces.len()]);
            }
        }
    }
}

proof fn lemma_part(s: Seq<char>)
    requires
        !s.contains('\n'),
    ensures
        forall|i: int| 0 <= i < emitted(s).len() ==> is_part_of_a_line(#[trigger] emitted(s)[i]),
{
    assert forall|k: int| 0 <= k < s.len() implies s[k] != '\n' by {
        assert(s.contains(s[k]));
    }
}

/// Whatever reads a stream comes in and whenever it is idle, line callbacks get whole
/// lines, without their ends, and parts of lines as they are; no callback ever gets
/// text of two lines. What waits is always a part of a line that is not too long.
pub proof fn line_callbacks_get_lines(events: Seq<StreamEvent>)
    ensures
        ({
            let pieces = whole_run(CallbackMode::Line, events);
            forall|i: int|
                0 <= i < pieces.len() ==> is_whole_line(#[trigger] pieces[i]) || is_part_of_a_line(
                    pieces[i],
                )
        }),
        !run(CallbackMode::Line, events).carry.contains('\n'),
        vstd::utf8::encode_utf8(run(CallbackMode::Line, events).carry).len() < 65536,
{
    lemma_line_run(events);
    let state = run(CallbackMode::Line, events);
    let all = state.carry + decode::tail(state.pending);
    lines_come_out_whole(all);
    lemma_part(drained(all).1);
    let out = finished(CallbackMode::Line, decode::tail(state.pending), state.carry);
    let pieces = whole_run(CallbackMode::Line, events);
    assert forall|i: int| 0 <= i < pieces.len() implies is_whole_line(#[trigger] pieces[i])
        || is_part_of_a_line(pieces[i]) by {
        if i < state.pieces.len() {
            assert(pieces[i] == state.pieces[i]);
        } else {
            let k = i - state.pieces.len();
            assert(pieces[i] == out[k]);
            if k < drained(all).0.len() {
                assert(out[k] == drained(all).0[k]);
            } else {
                assert(out[k] == emitted(drained(all).1)[k - drained(all).0.len()]);
            }
        }
    }
}

/// Lines that come without a pause are not cut, in whatever reads they come: a part of
/// a line comes out only at the end of the stream, or because it is too long.
pub proof fn lines_without_a_pause_stay_whole(events: Seq<StreamEvent>)
    requires
        forall|i: int| 0 <= i < events.len() ==> !(#[trigger] events[i] is Idle),
    ensures
        ({
            let pieces = run(CallbackMode::Line, events).pieces;
            forall|i: int|
                0 <= i < pieces.len() ==> is_whole_line(#[trigger] pieces[i]) || (is_part_of_a_line(
                    pieces[i],
                ) && vstd::utf8::encode_utf8(pieces[i].0).len() >= 65536)
        }),
    decreases events.len(),
{
    if events.len() > 0 {
        let fewer = events.drop_last();
        assert forall|i: int| 0 <= i < fewer.len() implies !(#[trigger] fewer[i] is Idle) by {
            assert(fewer[i] == events[i]);
        }
        lines_without_a_pause_stay_whole(fewer);
        assert(events.last() == events[events.len() - 1]);
        let before = run(CallbackMode::Line, fewer);
        let state = run(CallbackMode::Line, events);
        match events.last() {
            StreamEvent::Bytes(bytes) => {
                let text = decode::settled(before.pending + bytes);
                let out = dispatched(CallbackMode::Line, text, before.carry).0;
                lines_come_out_whole(before.carry + text);
                let pieces = state.pieces;
                assert(pieces == before.pieces + out);
                assert forall|i: int| 0 <= i < pieces.len() implies is_whole_line(
                    #[trigger] pieces[i],
                ) || (is_part_of_a_line(pieces[i]) && vstd::utf8::encode_utf8(pieces[i].0).len()
                    >= 65536) by {
                    if i < before.pieces.len() {
                        assert(pieces[i] == before.pieces[i]);
                    } else {
                        assert(pieces[i] == out[i - before.pieces.len()]);
                    }
                }
            },
            StreamEvent::Idle => {},
        }
    }
}

/// Without cutting into lines, callback and buffer get the same, and nothing waits but
/// the bytes of a character that is not complete.
pub proof fn raw_callbacks_get_what_is_buffered(events: Seq<StreamEvent>)
    ensures
        ({
            let state = run(CallbackMode::Raw, events);
            &&& state.carry.len() == 0
            &&& raw_text(state.pieces) == decode::settled(bytes_read(events))
            &&& forall|i: int|
                0 <= i < state.pieces.len() ==> (#[trigger] state.pieces[i]).1 == state.pieces[i].0
                    && state.pieces[i].0.len() > 0
        }),
    decreases events.len(),
{
    lemma_run(CallbackMode::Raw, events);
    let state = run(CallbackMode::Raw, events);
    assert(raw_text(state.pieces) + Seq::<char>::empty() == raw_text(state.pieces));
    if events.len() > 0 {
        raw_callbacks_get_what_is_buffered(events.drop_last());
        let before = run(CallbackMode::Raw, events.drop_last());
        match events.last() {
            StreamEvent::Bytes(bytes) => {
                let text = decode::settled(before.pending + bytes);
                let out = dispatched(CallbackMode::Raw, text, before.carry).0;
                assert(state.pieces == before.pieces + out);
                assert forall|i: int| 0 <= i < state.pieces.len() implies (
                #[trigger] state.pieces[i]).1 == state.pieces[i].0 && state.pieces[i].0.len() > 0 by {
                    if i < before.pieces.len() {
                        assert(state.pieces[i] == before.pieces[i]);
                    } else {
                        assert(state.pieces[i] == out[i - before.pieces.len()]);
                    }
                }
            },
            StreamEvent::Idle => {},
        }
    }
}

/// A read brings up to 8192 bytes, and an unfinished line waits for 80 milliseconds, or
/// until it has 65536 bytes.
pub proof fn limits_of_a_stream()
    ensures
        READ_CHUNK_SIZE == 8 * 1024,
        LINE_MODE_FLUSH_IDLE_MS == 80,
        LINE_MODE_FORCE_FLUSH == 64 * 1024,
{
}

/// What goes into the buffer and what the callback gets are the two texts of a piece.
pub proof fn a_piece_is_its_two_texts(pieces: Seq<Emission>, i: int)
    requires
        0 <= i < pieces.len(),
    ensures
        views(pieces).len() == pieces.len(),
        views(pieces)[i].0 == pieces[i].raw@,
        views(pieces)[i].1 == pieces[i].text@,
{
}

/// When a stream ends, the text that is left is what was decoded and not yet given out,
/// and once, what is said of the bytes that were kept back.
pub proof fn the_end_of_a_stream_is_said_once(pump: OutputPump)
    ensures
        pump.ended() ==> pump.fresh_at_eof() == pump.fresh(),
        !pump.ended() && pump.pending().len() == 0 ==> pump.fresh_at_eof() == pump.fresh(),
        !pump.ended() && pump.pending().len() > 0 ==> pump.fresh_at_eof() == pump.fresh().push(
            '\u{fffd}',
        ),
{
    decode::an_incomplete_end_is_replaced(pump.pending());
    assert(pump.fresh() + seq!['\u{fffd}'] == pump.fresh().push('\u{fffd}'));
    assert(pump.fresh() + Seq::<char>::empty() == pump.fresh());
}

} // verus!
