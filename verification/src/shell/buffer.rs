//! A bounded output buffer: over its capacity it drops the oldest chunks.

use std::collections::VecDeque;

use vstd::prelude::*;

use crate::text;

verus! {

broadcast use vstd::string::group_string_axioms;

/// The number of bytes of all `chunks`.
pub open spec fn total(chunks: Seq<Seq<char>>) -> nat
    decreases chunks.len(),
{
    if chunks.len() == 0 {
        0
    } else {
        total(chunks.drop_last()) + text::byte_count(chunks.last())
    }
}

/// The text of all `chunks`, in order.
pub open spec fn flat(chunks: Seq<Seq<char>>) -> Seq<char>
    decreases chunks.len(),
{
    if chunks.len() == 0 {
        Seq::empty()
    } else {
        flat(chunks.drop_last()) + chunks.last()
    }
}

/// What a buffer of `max` bytes keeps of `chunks`: as many of the newest as fit.
pub open spec fn kept(chunks: Seq<Seq<char>>, max: nat) -> Seq<Seq<char>>
    decreases chunks.len(),
{
    if chunks.len() == 0 || total(chunks) <= max {
        chunks
    } else {
        kept(chunks.drop_first(), max)
    }
}

/// A count that starts again at zero behind the largest `usize`.
pub open spec fn counter(n: int) -> usize
    decreases n,
{
    if n > usize::MAX {
        counter(n - usize::MAX - 1)
    } else {
        n as usize
    }
}

/// The characters of each chunk.
pub open spec fn chunk_texts(chunks: Seq<String>) -> Seq<Seq<char>> {
    chunks.map_values(|c: String| c@)
}

/// What a buffer holds, how much it can hold, and how much it has dropped.
pub struct BufferModel {
    pub chunks: Seq<Seq<char>>,
    pub capacity: nat,
    pub dropped: usize,
}

/// An empty buffer of `capacity` bytes.
pub open spec fn fresh(capacity: nat) -> BufferModel {
    BufferModel { chunks: Seq::empty(), capacity, dropped: 0 }
}

/// A buffer behind which `chunk` was put.
pub open spec fn pushed(b: BufferModel, chunk: Seq<char>) -> BufferModel {
    if chunk.len() == 0 {
        b
    } else {
        let all = b.chunks.push(chunk);
        let left = kept(all, b.capacity);
        BufferModel {
            chunks: left,
            capacity: b.capacity,
            dropped: counter(b.dropped + total(all) - total(left)),
        }
    }
}

/// A buffer out of which the text was taken.
pub open spec fn emptied(b: BufferModel) -> BufferModel {
    BufferModel { chunks: Seq::empty(), ..b }
}

/// A bounded output buffer.
pub struct OutputBuffer {
    chunks: VecDeque<String>,
    total_len: usize,
    max_bytes: usize,
    truncated: usize,
}

impl View for OutputBuffer {
    type V = Seq<Seq<char>>;

    /// The chunks in the buffer, oldest first.
    closed spec fn view(&self) -> Seq<Seq<char>> {
        chunk_texts(self.chunks@)
    }
}

impl OutputBuffer {
    /// The capacity in bytes.
    pub closed spec fn capacity(&self) -> nat {
        self.max_bytes as nat
    }

    /// The bytes dropped so far, as the counter shows them.
    pub closed spec fn dropped(&self) -> usize {
        self.truncated
    }

    /// What the buffer holds, can hold and has dropped.
    pub open spec fn model(&self) -> BufferModel {
        BufferModel { chunks: self@, capacity: self.capacity(), dropped: self.dropped() }
    }

    /// The buffer holds no more than its capacity, no empty chunk, and knows how
    /// many bytes it holds.
    pub closed spec fn wf(&self) -> bool {
        &&& self.total_len == total(self@)
        &&& total(self@) <= self.capacity()
        &&& forall|i: int| 0 <= i < self@.len() ==> (#[trigger] self@[i]).len() > 0
    }

    /// An empty buffer that holds up to `max_bytes` bytes.
    pub fn new(max_bytes: usize) -> (r: OutputBuffer)
        ensures
            r.wf(),
            r.model() == fresh(max_bytes as nat),
    {
        let r = OutputBuffer { chunks: VecDeque::new(), total_len: 0, max_bytes, truncated: 0 };
        assert(r@ == Seq::<Seq<char>>::empty());
        r
    }

    /// Whether the buffer holds nothing.
    pub fn is_empty(&self) -> (r: bool)
        ensures
            r == (self@.len() == 0),
            self.wf() ==> r == (flat(self@).len() == 0),
    {
        self.chunks.len() == 0
    }

    /// The bytes dropped so far because the capacity was exceeded.
    pub fn truncated_bytes(&self) -> (r: usize)
        ensures
            r == self.dropped(),
    {
        self.truncated
    }

    /// Puts `chunk` behind the others, then drops the oldest chunks until the
    /// buffer is within its capacity. The result says whether there is news for
    /// a reader: an empty chunk is none and changes nothing.
    pub fn push(&mut self, chunk: String) -> (news: bool)
        requires
            old(self).wf(),
        ensures
            final(self).wf(),
            final(self).model() == pushed(old(self).model(), chunk@),
            news == (chunk@.len() > 0),
            chunk@.len() == 0 ==> final(self).model() == old(self).model(),
            0 < chunk@.len() && text::byte_count(chunk@) <= old(self).capacity()
                ==> final(self)@.len() > 0 && final(self)@.last() == chunk@,
    {
        proof {
            if chunk@.len() > 0 {
                the_newest_output_is_kept(self.model(), chunk@);
            }
        }
        if chunk.as_str().is_empty() {
            return false;
        }
        let len: usize = text::byte_len(chunk.as_str());
        let ghost was = self@;
        let ghost all = was.push(chunk@);
        if len > self.max_bytes {
            self.chunks.clear();
            self.truncated = self.truncated.wrapping_add(self.total_len).wrapping_add(len);
            self.total_len = 0;
            proof {
                assert(self@ == Seq::<Seq<char>>::empty());
                assert(all.drop_last() == was);
                lemma_oversized(all, self.max_bytes as nat);
                lemma_counter(old(self).truncated as int, old(self).total_len as int);
                lemma_counter(old(self).truncated + old(self).total_len, len as int);
            }
            return true;
        }
        let room: usize = self.max_bytes - len;
        let lost: usize = self.evict(room);
        let ghost left = self@;
        self.chunks.push_back(chunk);
        self.total_len = self.total_len + len;
        self.truncated = self.truncated.wrapping_add(lost);
        proof {
            assert(self@ == left.push(chunk@));
            assert(self@.drop_last() == left);
            lemma_kept_with_room(was, chunk@, self.max_bytes as nat);
            lemma_counter(old(self).truncated as int, lost as int);
            kept_is_the_longest_fitting_end(was, room as nat);
        }
        true
    }

    /// Drops the oldest chunks until no more than `room` bytes are left, and
    /// returns the number of bytes dropped.
    fn evict(&mut self, room: usize) -> (lost: usize)
        requires
            old(self).wf(),
        ensures
            final(self)@ == kept(old(self)@, room as nat),
            final(self).total_len == total(final(self)@),
            final(self).max_bytes == old(self).max_bytes,
            final(self).truncated == old(self).truncated,
            lost == old(self).total_len - final(self).total_len,
            final(self).total_len <= room,
    {
        let mut lost: usize = 0;
        while self.total_len > room
            invariant
                self.total_len == total(self@),
                self.max_bytes == old(self).max_bytes,
                self.truncated == old(self).truncated,
                lost + self.total_len == old(self).total_len,
                kept(old(self)@, room as nat) == kept(self@, room as nat),
            decreases self@.len(),
        {
            let ghost now = self@;
            match self.chunks.pop_front() {
                Some(front) => {
                    let n: usize = text::byte_len(front.as_str());
                    proof {
                        lemma_total_first(now);
                        assert(now[0] == front@);
                        assert(self@ == now.drop_first());
                    }
                    self.total_len = self.total_len - n;
                    lost = lost + n;
                },
                None => {
                    proof {
                        assert(now.len() == 0);
                        assert(false);
                    }
                },
            }
        }
        lost
    }

    /// Takes out all the text and leaves the buffer empty.
    pub fn take(&mut self) -> (r: String)
        requires
            old(self).wf(),
        ensures
            final(self).wf(),
            r@ == flat(old(self)@),
            r@ == old(self)@.flatten(),
            final(self).model() == emptied(old(self).model()),
            final(self)@.len() == 0,
    {
        proof {
            chunks_join_in_order(self@);
        }
        let mut r: String = String::new();
        let ghost was = self@;
        let mut i: usize = 0;
        while i < self.chunks.len()
            invariant
                i <= self.chunks@.len(),
                self@ == was,
                *self == *old(self),
                r@ == flat(was.take(i as int)),
            decreases self.chunks@.len() - i,
        {
            proof {
                assert(was.take(i + 1).drop_last() == was.take(i as int));
                assert(was.take(i + 1).last() == self.chunks@[i as int]@);
            }
            r.append(self.chunks[i].as_str());
            i = i + 1;
        }
        assert(was.take(i as int) == was);
        self.chunks.clear();
        self.total_len = 0;
        assert(self@ == Seq::<Seq<char>>::empty());
        r
    }
}

/// A buffer never holds more than its capacity, and what it holds is the newest
/// part of what was pushed, as much of it as fits: one chunk more would not.
pub proof fn kept_is_the_longest_fitting_end(chunks: Seq<Seq<char>>, max: nat)
    ensures
        total(kept(chunks, max)) <= max,
        kept(chunks, max).len() <= chunks.len(),
        kept(chunks, max) == chunks.skip(chunks.len() - kept(chunks, max).len()),
        kept(chunks, max).len() < chunks.len() ==> total(
            chunks.skip(chunks.len() - kept(chunks, max).len() - 1),
        ) > max,
    decreases chunks.len(),
{
    if chunks.len() == 0 || total(chunks) <= max {
        assert(chunks.skip(0) == chunks);
    } else {
        let rest = chunks.drop_first();
        kept_is_the_longest_fitting_end(rest, max);
        let n = kept(chunks, max).len();
        assert(rest.skip(rest.len() - n) == chunks.skip(chunks.len() - n));
        if n < rest.len() {
            assert(rest.skip(rest.len() - n - 1) == chunks.skip(chunks.len() - n - 1));
        } else {
            assert(chunks.skip(0) == chunks);
        }
    }
}

/// What is kept after several pushes depends only on what was pushed, not on
/// when the buffer dropped what: dropping on the way changes nothing.
pub proof fn dropping_early_changes_nothing(
    chunks: Seq<Seq<char>>,
    chunk: Seq<char>,
    max: nat,
)
    ensures
        kept(kept(chunks, max).push(chunk), max) == kept(chunks.push(chunk), max),
    decreases chunks.len(),
{
    if chunks.len() > 0 && total(chunks) > max {
        dropping_early_changes_nothing(chunks.drop_first(), chunk, max);
        assert(chunks.push(chunk).drop_last() == chunks);
        assert(chunks.push(chunk).drop_first() == chunks.drop_first().push(chunk));
    }
}

/// The text of all chunks is what they are behind each other, with the bytes of its
/// UTF-8 form.
pub proof fn chunks_join_in_order(chunks: Seq<Seq<char>>)
    ensures
        flat(chunks) == chunks.flatten(),
        total(chunks) == vstd::utf8::encode_utf8(chunks.flatten()).len(),
    decreases chunks.len(),
{
    lemma_flat_bytes(chunks);
    if chunks.len() > 0 {
        chunks_join_in_order(chunks.drop_last());
        chunks.drop_last().lemma_flatten_push(chunks.last());
        assert(chunks.drop_last().push(chunks.last()) == chunks);
    }
}

/// The newest output is kept and the oldest is dropped. With a new chunk the buffer
/// holds the last of all chunks, in order and unchanged, as many of them as fit: one
/// more would not. A chunk that fits by itself is always the last one then. The bytes
/// of those that had to go are counted, from zero again behind the largest number.
pub proof fn the_newest_output_is_kept(b: BufferModel, chunk: Seq<char>)
    requires
        chunk.len() > 0,
    ensures
        ({
            let all = b.chunks.push(chunk);
            let r = pushed(b, chunk);
            let gone = all.len() - r.chunks.len();
            &&& r.capacity == b.capacity
            &&& gone >= 0
            &&& r.chunks == all.skip(gone)
            &&& vstd::utf8::encode_utf8(r.chunks.flatten()).len() <= b.capacity
            &&& gone > 0 ==> vstd::utf8::encode_utf8(all.skip(gone - 1).flatten()).len()
                > b.capacity
            &&& vstd::utf8::encode_utf8(chunk).len() <= b.capacity ==> r.chunks.len() > 0
                && r.chunks.last() == chunk
            &&& r.dropped == (b.dropped + vstd::utf8::encode_utf8(all.take(gone).flatten()).len())
                % (usize::MAX + 1)
        }),
{
    let all = b.chunks.push(chunk);
    let r = pushed(b, chunk);
    let gone = all.len() - r.chunks.len();
    kept_is_the_longest_fitting_end(all, b.capacity);
    chunks_join_in_order(r.chunks);
    if gone > 0 {
        chunks_join_in_order(all.skip(gone - 1));
    }
    if text::byte_count(chunk) <= b.capacity {
        lemma_kept_with_room(b.chunks, chunk, b.capacity);
    }
    chunks_join_in_order(all.take(gone));
    lemma_total_parts(all, gone);
    a_counter_starts_again_at_zero(b.dropped + total(all) - total(r.chunks));
}

/// What is behind each other has the bytes of both.
proof fn lemma_total_parts(chunks: Seq<Seq<char>>, n: int)
    requires
        0 <= n <= chunks.len(),
    ensures
        total(chunks) == total(chunks.take(n)) + total(chunks.skip(n)),
    decreases chunks.len() - n,
{
    if n == chunks.len() {
        assert(chunks.take(n) == chunks);
        assert(chunks.skip(n) == Seq::<Seq<char>>::empty());
    } else {
        lemma_total_parts(chunks, n + 1);
        assert(chunks.take(n + 1).drop_last() == chunks.take(n));
        lemma_total_first(chunks.skip(n));
        assert(chunks.skip(n).drop_first() == chunks.skip(n + 1));
    }
}

/// A counter shows the count as long as it is a number that it can hold, and what is
/// left of it beyond a multiple of all such numbers otherwise.
pub proof fn a_counter_starts_again_at_zero(n: int)
    requires
        n >= 0,
    ensures
        counter(n) == n % (usize::MAX + 1),
        n <= usize::MAX ==> counter(n) == n,
    decreases n,
{
    if n > usize::MAX {
        a_counter_starts_again_at_zero(n - usize::MAX - 1);
        assert(n % (usize::MAX + 1) == (n - (usize::MAX + 1)) % (usize::MAX + 1))
            by (nonlinear_arith)
            requires
                n > usize::MAX,
        ;
    } else {
        assert(n % (usize::MAX + 1) == n) by (nonlinear_arith)
            requires
                0 <= n <= usize::MAX,
        ;
    }
}

/// A buffer whose text was taken out is empty, of the same capacity, and still knows
/// what it has dropped; nothing is left to be taken out of it.
pub proof fn nothing_is_taken_twice(b: BufferModel)
    ensures
        emptied(b).chunks.len() == 0,
        emptied(b).capacity == b.capacity,
        emptied(b).dropped == b.dropped,
        flat(emptied(b).chunks).len() == 0,
        fresh(b.capacity).chunks.len() == 0,
        fresh(b.capacity).capacity == b.capacity,
        fresh(b.capacity).dropped == 0,
{
}

/// After any number of chunks, a buffer that was empty holds the last of them, as many
/// as fit, whatever it dropped on the way.
pub proof fn a_buffer_holds_the_end_of_all_output(capacity: nat, chunks: Seq<Seq<char>>)
    requires
        forall|i: int| 0 <= i < chunks.len() ==> (#[trigger] chunks[i]).len() > 0,
    ensures
        ({
            let events = chunks.map_values(|c: Seq<char>| BufferEvent::Pushed(c));
            let held = after_events(capacity, events).buffer.chunks;
            let gone = chunks.len() - held.len();
            &&& gone >= 0
            &&& held == chunks.skip(gone)
            &&& vstd::utf8::encode_utf8(held.flatten()).len() <= capacity
            &&& gone > 0 ==> vstd::utf8::encode_utf8(chunks.skip(gone - 1).flatten()).len()
                > capacity
        }),
{
    let events = chunks.map_values(|c: Seq<char>| BufferEvent::Pushed(c));
    lemma_pushes(capacity, chunks);
    kept_is_the_longest_fitting_end(chunks, capacity);
    let held = after_events(capacity, events).buffer.chunks;
    let gone = chunks.len() - held.len();
    chunks_join_in_order(held);
    if gone > 0 {
        chunks_join_in_order(chunks.skip(gone - 1));
    }
}

proof fn lemma_pushes(capacity: nat, chunks: Seq<Seq<char>>)
    requires
        forall|i: int| 0 <= i < chunks.len() ==> (#[trigger] chunks[i]).len() > 0,
    ensures
        ({
            let events = chunks.map_values(|c: Seq<char>| BufferEvent::Pushed(c));
            let b = after_events(capacity, events).buffer;
            b.chunks == kept(chunks, capacity) && b.capacity == capacity
        }),
    decreases chunks.len(),
{
    let events = chunks.map_values(|c: Seq<char>| BufferEvent::Pushed(c));
    if chunks.len() > 0 {
        let before = chunks.drop_last();
        assert forall|i: int| 0 <= i < before.len() implies (#[trigger] before[i]).len() > 0 by {
            assert(before[i] == chunks[i]);
        }
        lemma_pushes(capacity, before);
        assert(events.drop_last() == before.map_values(|c: Seq<char>| BufferEvent::Pushed(c)));
        assert(events.last() == BufferEvent::Pushed(chunks.last()));
        assert(chunks.last() == chunks[chunks.len() - 1]);
        dropping_early_changes_nothing(before, chunks.last(), capacity);
        assert(before.push(chunks.last()) == chunks);
    }
}

/// What happens to a buffer.
pub enum BufferEvent {
    /// This chunk is put into it.
    Pushed(Seq<char>),
    /// Its text is taken out.
    Taken,
}

/// A buffer, and all text taken out of it so far.
pub struct BufferState {
    pub buffer: BufferModel,
    pub taken: Seq<char>,
}

/// What an empty buffer of `capacity` bytes becomes by `events`.
pub open spec fn after_events(capacity: nat, events: Seq<BufferEvent>) -> BufferState
    decreases events.len(),
{
    if events.len() == 0 {
        BufferState { buffer: fresh(capacity), taken: Seq::empty() }
    } else {
        let before = after_events(capacity, events.drop_last());
        match events.last() {
            BufferEvent::Pushed(chunk) => BufferState {
                buffer: pushed(before.buffer, chunk),
                ..before
            },
            BufferEvent::Taken => BufferState {
                buffer: emptied(before.buffer),
                taken: before.taken + flat(before.buffer.chunks),
            },
        }
    }
}

/// All text that `events` put into a buffer.
pub open spec fn pushed_text(events: Seq<BufferEvent>) -> Seq<char>
    decreases events.len(),
{
    if events.len() == 0 {
        Seq::empty()
    } else {
        match events.last() {
            BufferEvent::Pushed(chunk) => pushed_text(events.drop_last()) + chunk,
            BufferEvent::Taken => pushed_text(events.drop_last()),
        }
    }
}

/// Every byte that was put into a buffer has been taken out, is still in it or was
/// dropped, and the counter counts those that were dropped.
pub proof fn every_byte_is_taken_held_or_counted(capacity: nat, events: Seq<BufferEvent>)
    ensures
        ({
            let s = after_events(capacity, events);
            let lost = text::byte_count(pushed_text(events)) - text::byte_count(s.taken) - total(
                s.buffer.chunks,
            );
            &&& s.buffer.capacity == capacity
            &&& lost >= 0
            &&& s.buffer.dropped == counter(lost)
        }),
    decreases events.len(),
{
    if events.len() > 0 {
        every_byte_is_taken_held_or_counted(capacity, events.drop_last());
        let s = after_events(capacity, events.drop_last());
        let all = pushed_text(events.drop_last());
        match events.last() {
            BufferEvent::Pushed(chunk) => {
                text::lemma_byte_count_append(all, chunk);
                let chunks = s.buffer.chunks.push(chunk);
                assert(chunks.drop_last() == s.buffer.chunks);
                if chunk.len() > 0 {
                    kept_is_the_longest_fitting_end(chunks, capacity);
                    lemma_kept_total(chunks, capacity);
                    let lost = text::byte_count(all) - text::byte_count(s.taken) - total(
                        s.buffer.chunks,
                    );
                    lemma_count_on(lost, total(chunks) - total(kept(chunks, capacity)));
                } else {
                    assert(all + chunk == all);
                }
            },
            BufferEvent::Taken => {
                text::lemma_byte_count_append(s.taken, flat(s.buffer.chunks));
                lemma_flat_bytes(s.buffer.chunks);
            },
        }
    }
}

/// As long as no more is put into a buffer than it can hold, nothing is lost: what
/// was taken out and what is still in it are all the text, in order, and nothing is
/// counted as dropped.
pub proof fn nothing_is_lost_within_the_capacity(capacity: nat, events: Seq<BufferEvent>)
    requires
        text::byte_count(pushed_text(events)) <= capacity,
    ensures
        ({
            let s = after_events(capacity, events);
            &&& s.taken + flat(s.buffer.chunks) == pushed_text(events)
            &&& s.buffer.dropped == 0
        }),
    decreases events.len(),
{
    if events.len() > 0 {
        let all = pushed_text(events.drop_last());
        match events.last() {
            BufferEvent::Pushed(chunk) => {
                text::lemma_byte_count_append(all, chunk);
            },
            BufferEvent::Taken => {},
        }
        nothing_is_lost_within_the_capacity(capacity, events.drop_last());
        every_byte_is_taken_held_or_counted(capacity, events.drop_last());
        let s = after_events(capacity, events.drop_last());
        text::lemma_byte_count_append(s.taken, flat(s.buffer.chunks));
        lemma_flat_bytes(s.buffer.chunks);
        match events.last() {
            BufferEvent::Pushed(chunk) => {
                let chunks = s.buffer.chunks.push(chunk);
                assert(chunks.drop_last() == s.buffer.chunks);
                assert(s.taken + (flat(s.buffer.chunks) + chunk) == (s.taken + flat(
                    s.buffer.chunks,
                )) + chunk);
                if chunk.len() == 0 {
                    assert(all + chunk == all);
                }
            },
            BufferEvent::Taken => {
                assert((s.taken + flat(s.buffer.chunks)) + Seq::<char>::empty() == s.taken + flat(
                    s.buffer.chunks,
                ));
            },
        }
    }
}

/// What is kept has no more bytes than all.
proof fn lemma_kept_total(chunks: Seq<Seq<char>>, max: nat)
    ensures
        total(kept(chunks, max)) <= total(chunks),
    decreases chunks.len(),
{
    if chunks.len() > 0 && total(chunks) > max {
        lemma_total_first(chunks);
        lemma_kept_total(chunks.drop_first(), max);
    }
}

/// The text of all chunks has the bytes of all chunks.
proof fn lemma_flat_bytes(chunks: Seq<Seq<char>>)
    ensures
        text::byte_count(flat(chunks)) == total(chunks),
    decreases chunks.len(),
{
    if chunks.len() > 0 {
        lemma_flat_bytes(chunks.drop_last());
        text::lemma_byte_count_append(flat(chunks.drop_last()), chunks.last());
    }
}

/// Counting on from a counter's value is counting on from the count, by any number.
proof fn lemma_count_on(a: int, d: int)
    requires
        0 <= a,
        0 <= d,
    ensures
        counter(counter(a) + d) == counter(a + d),
    decreases a,
{
    if a > usize::MAX {
        lemma_count_on(a - usize::MAX - 1, d);
        assert(a + d - usize::MAX - 1 == a - usize::MAX - 1 + d);
    }
}

/// The oldest chunk's bytes are part of the total.
proof fn lemma_total_first(s: Seq<Seq<char>>)
    requires
        s.len() > 0,
    ensures
        total(s) == text::byte_count(s[0]) + total(s.drop_first()),
    decreases s.len(),
{
    if s.len() == 1 {
        assert(s.drop_last() == Seq::<Seq<char>>::empty());
        assert(s.drop_first() == Seq::<Seq<char>>::empty());
    } else {
        lemma_total_first(s.drop_last());
        assert(s.drop_last().drop_first() == s.drop_first().drop_last());
    }
}

/// A newest chunk that fits takes its bytes from the room of the others.
proof fn lemma_kept_with_room(chunks: Seq<Seq<char>>, chunk: Seq<char>, max: nat)
    requires
        text::byte_count(chunk) <= max,
    ensures
        kept(chunks.push(chunk), max) == kept(
            chunks,
            (max - text::byte_count(chunk)) as nat,
        ).push(chunk),
        total(chunks.push(chunk)) == total(chunks) + text::byte_count(chunk),
    decreases chunks.len(),
{
    assert(chunks.push(chunk).drop_last() == chunks);
    assert(total(chunks.push(chunk)) == total(chunks) + text::byte_count(chunk));
    let room = (max - text::byte_count(chunk)) as nat;
    if total(chunks) <= room {
        assert(kept(chunks.push(chunk), max) == chunks.push(chunk));
        assert(kept(chunks, room) == chunks);
    } else {
        lemma_kept_with_room(chunks.drop_first(), chunk, max);
        assert(chunks.push(chunk).drop_first() == chunks.drop_first().push(chunk));
    }
}

/// With a newest chunk that is larger than the capacity nothing is kept.
proof fn lemma_oversized(s: Seq<Seq<char>>, max: nat)
    requires
        s.len() > 0 ==> text::byte_count(s.last()) > max,
    ensures
        kept(s, max) == Seq::<Seq<char>>::empty(),
    decreases s.len(),
{
    if s.len() > 0 {
        lemma_oversized(s.drop_first(), max);
    }
}

/// Counting on from a counter's value is counting on from the count.
proof fn lemma_counter(a: int, b: int)
    requires
        0 <= a,
        0 <= b <= usize::MAX,
    ensures
        counter(a).wrapping_add(b as usize) == counter(a + b),
    decreases a,
{
    reveal_with_fuel(counter, 2);
    if a > usize::MAX {
        lemma_counter(a - usize::MAX - 1, b);
        assert(a - usize::MAX - 1 + b == a + b - usize::MAX - 1);
    }
}

} // verus!
