//! Incremental decoding of a byte stream into text.
//!
//! Bytes are read as UTF-8. What is not UTF-8 is replaced: every maximal piece
//! that cannot be continued to a character becomes one `U+FFFD`. A character
//! that arrives in two reads is kept back until its last byte is there.

use vstd::prelude::*;

verus! {

broadcast use vstd::string::group_string_axioms;

/// `char::from_u32` gives the character with a given scalar value, and nothing
/// for a number that is not a scalar value.
pub assume_specification[ char::from_u32 ](i: u32) -> (r: Option<char>)
    ensures
        r is Some <==> vstd::utf8::is_scalar(i),
        r matches Some(c) ==> c as u32 == i,
;

/// What stands for bytes that are not UTF-8.
pub const REPLACEMENT: char = '\u{fffd}';

/// The number of bytes of a character that starts with the byte `b`, zero if no
/// character starts with it.
pub open spec fn width(b: u8) -> int {
    if b <= 0x7f {
        1
    } else if 0xc2 <= b <= 0xdf {
        2
    } else if 0xe0 <= b <= 0xef {
        3
    } else if 0xf0 <= b <= 0xf4 {
        4
    } else {
        0
    }
}

/// Whether `b` can be the second byte of a character that starts with `first`.
pub open spec fn follows(first: u8, b: u8) -> bool {
    if first == 0xe0 {
        0xa0 <= b <= 0xbf
    } else if first == 0xed {
        0x80 <= b <= 0x9f
    } else if first == 0xf0 {
        0x90 <= b <= 0xbf
    } else if first == 0xf4 {
        0x80 <= b <= 0x8f
    } else {
        0x80 <= b <= 0xbf
    }
}

/// How many bytes at the start of `bytes` can be the start of one character.
pub open spec fn fitting(bytes: Seq<u8>) -> int {
    let w = width(bytes[0]);
    if w < 2 {
        w
    } else if bytes.len() < 2 || !follows(bytes[0], bytes[1]) {
        1
    } else if w == 2 || bytes.len() < 3 || !vstd::utf8::is_continuation_byte(bytes[2]) {
        2
    } else if w == 3 || bytes.len() < 4 || !vstd::utf8::is_continuation_byte(bytes[3]) {
        3
    } else {
        4
    }
}

/// What stands at the start of a non-empty byte sequence.
pub enum Piece {
    /// A character, and the number of its bytes.
    Whole(char, usize),
    /// So many bytes that no byte can complete.
    Broken(usize),
    /// Nothing but the start of a character.
    Partial,
}

/// The piece at the start of `bytes`.
pub open spec fn piece(bytes: Seq<u8>) -> Piece {
    let w = width(bytes[0]);
    let k = fitting(bytes);
    if w > 0 && k == w {
        Piece::Whole(vstd::utf8::decode_first_scalar(bytes) as char, w as usize)
    } else if w > 0 && k == bytes.len() {
        Piece::Partial
    } else if w == 0 {
        Piece::Broken(1)
    } else {
        Piece::Broken(k as usize)
    }
}

/// The text that `bytes` settle, whatever follows them.
pub open spec fn settled(bytes: Seq<u8>) -> Seq<char>
    decreases bytes.len(),
{
    if bytes.len() == 0 {
        Seq::empty()
    } else {
        match piece(bytes) {
            Piece::Whole(c, n) => seq![c] + settled(bytes.skip(n as int)),
            Piece::Broken(n) => seq![REPLACEMENT] + settled(bytes.skip(n as int)),
            Piece::Partial => Seq::empty(),
        }
    }
}

/// The bytes at the end of `bytes` that are the start of a character.
pub open spec fn unsettled(bytes: Seq<u8>) -> Seq<u8>
    decreases bytes.len(),
{
    if bytes.len() == 0 {
        bytes
    } else {
        match piece(bytes) {
            Piece::Whole(c, n) => unsettled(bytes.skip(n as int)),
            Piece::Broken(n) => unsettled(bytes.skip(n as int)),
            Piece::Partial => bytes,
        }
    }
}

/// What remains to be said of bytes kept back when nothing follows them.
pub open spec fn tail(pending: Seq<u8>) -> Seq<char> {
    if pending.len() == 0 {
        Seq::empty()
    } else {
        seq![REPLACEMENT]
    }
}

/// The text of a complete byte sequence.
pub open spec fn decoded(bytes: Seq<u8>) -> Seq<char> {
    settled(bytes) + tail(unsettled(bytes))
}

/// The character with the scalar value `u`.
fn character(u: u32) -> (r: char)
    requires
        vstd::utf8::is_scalar(u),
    ensures
        r == u as char,
{
    match char::from_u32(u) {
        Some(c) => {
            proof {
                vstd::utf8::char_u32_cast(c, u);
            }
            c
        },
        None => REPLACEMENT,
    }
}

/// The piece at position `i` of `v`.
fn scan(v: &Vec<u8>, i: usize) -> (r: Piece)
    requires
        i < v@.len(),
    ensures
        r == piece(v@.skip(i as int)),
{
    let ghost s = v@.skip(i as int);
    let n: usize = v.len() - i;
    let b0: u8 = v[i];
    if b0 <= 0x7f {
        let u: u32 = (b0 & 0x7f) as u32;
        proof {
            assert((b0 & 0x7f) <= 0x7f) by (bit_vector);
        }
        return Piece::Whole(character(u), 1);
    }
    if b0 < 0xc2 || b0 > 0xf4 {
        return Piece::Broken(1);
    }
    if n < 2 {
        return Piece::Partial;
    }
    let b1: u8 = v[i + 1];
    let lo: u8 = if b0 == 0xe0 { 0xa0 } else if b0 == 0xf0 { 0x90 } else { 0x80 };
    let hi: u8 = if b0 == 0xed { 0x9f } else if b0 == 0xf4 { 0x8f } else { 0xbf };
    if b1 < lo || b1 > hi {
        return Piece::Broken(1);
    }
    if b0 <= 0xdf {
        let u: u32 = (((b0 & 0x1f) as u32) << 6) | ((b1 & 0x3f) as u32);
        proof {
            assert(0x80 <= ((((b0 & 0x1f) as u32) << 6) | ((b1 & 0x3f) as u32)) <= 0x7ff)
                by (bit_vector)
                requires
                    0xc2 <= b0 <= 0xdf,
            ;
        }
        return Piece::Whole(character(u), 2);
    }
    if n < 3 {
        return Piece::Partial;
    }
    let b2: u8 = v[i + 2];
    if b2 < 0x80 || b2 > 0xbf {
        return Piece::Broken(2);
    }
    if b0 <= 0xef {
        let u: u32 = (((b0 & 0x0f) as u32) << 12) | (((b1 & 0x3f) as u32) << 6) | ((b2
            & 0x3f) as u32);
        proof {
            lemma_three(b0, b1, b2);
        }
        return Piece::Whole(character(u), 3);
    }
    if n < 4 {
        return Piece::Partial;
    }
    let b3: u8 = v[i + 3];
    if b3 < 0x80 || b3 > 0xbf {
        return Piece::Broken(3);
    }
    let u: u32 = (((b0 & 0x07) as u32) << 18) | (((b1 & 0x3f) as u32) << 12) | (((b2
        & 0x3f) as u32) << 6) | ((b3 & 0x3f) as u32);
    proof {
        lemma_four(b0, b1, b2, b3);
    }
    Piece::Whole(character(u), 4)
}

proof fn lemma_three(b0: u8, b1: u8, b2: u8)
    requires
        0xe0 <= b0 <= 0xef,
        follows(b0, b1),
        0x80 <= b2 <= 0xbf,
    ensures
        vstd::utf8::has_width_3_encoding(vstd::utf8::codepoint_width_3(b0, b1, b2)),
{
    assert({
        let u = (((b0 & 0x0f) as u32) << 12) | (((b1 & 0x3f) as u32) << 6) | ((b2 & 0x3f) as u32);
        0x800 <= u <= 0xffff && !(0xd800 <= u <= 0xdfff)
    }) by (bit_vector)
        requires
            0xe0 <= b0 <= 0xef,
            0x80 <= b1 <= 0xbf,
            b0 == 0xe0 ==> 0xa0 <= b1,
            b0 == 0xed ==> b1 <= 0x9f,
            0x80 <= b2 <= 0xbf,
    ;
}

proof fn lemma_four(b0: u8, b1: u8, b2: u8, b3: u8)
    requires
        0xf0 <= b0 <= 0xf4,
        follows(b0, b1),
        0x80 <= b2 <= 0xbf,
        0x80 <= b3 <= 0xbf,
    ensures
        vstd::utf8::has_width_4_encoding(vstd::utf8::codepoint_width_4(b0, b1, b2, b3)),
{
    assert({
        let u = (((b0 & 0x07) as u32) << 18) | (((b1 & 0x3f) as u32) << 12) | (((b2
            & 0x3f) as u32) << 6) | ((b3 & 0x3f) as u32);
        0x10000 <= u <= 0x10ffff
    }) by (bit_vector)
        requires
            0xf0 <= b0 <= 0xf4,
            0x80 <= b1 <= 0xbf,
            b0 == 0xf0 ==> 0x90 <= b1,
            b0 == 0xf4 ==> b1 <= 0x8f,
            0x80 <= b2 <= 0xbf,
            0x80 <= b3 <= 0xbf,
    ;
}

/// Appends to `out` the text that `v` settles and returns the bytes that it
/// does not settle.
fn decode_into(v: &Vec<u8>, out: &mut String) -> (rest: Vec<u8>)
    ensures
        final(out)@ == old(out)@ + settled(v@),
        rest@ == unsettled(v@),
{
    let ghost before = out@;
    let n: usize = v.len();
    let mut i: usize = 0;
    assert(v@.skip(0) == v@);
    while i < n
        invariant
            n == v@.len(),
            i <= n,
            before == old(out)@,
            before + settled(v@) == out@ + settled(v@.skip(i as int)),
            unsettled(v@) == unsettled(v@.skip(i as int)),
        decreases n - i,
    {
        let ghost s = v@.skip(i as int);
        match scan(v, i) {
            Piece::Whole(c, k) => {
                let ghost prior = out@;
                out.push(c);
                proof {
                    assert(s.skip(k as int) == v@.skip(i + k));
                    assert(prior + (seq![c] + settled(s.skip(k as int))) == prior.push(c) + settled(
                        s.skip(k as int),
                    ));
                }
                i = i + k;
            },
            Piece::Broken(k) => {
                let ghost prior = out@;
                out.push(REPLACEMENT);
                proof {
                    assert(s.skip(k as int) == v@.skip(i + k));
                    assert(prior + (seq![REPLACEMENT] + settled(s.skip(k as int))) == prior.push(
                        REPLACEMENT,
                    ) + settled(s.skip(k as int)));
                }
                i = i + k;
            },
            Piece::Partial => {
                proof {
                    assert(out@ + settled(s) == out@);
                }
                return bytes_from(v, i);
            },
        }
    }
    proof {
        assert(v@.skip(n as int) == Seq::<u8>::empty());
        assert(out@ + settled(v@.skip(n as int)) == out@);
    }
    Vec::new()
}

/// The bytes of `v` from position `from` on.
fn bytes_from(v: &Vec<u8>, from: usize) -> (r: Vec<u8>)
    requires
        from <= v@.len(),
    ensures
        r@ == v@.skip(from as int),
{
    let mut r: Vec<u8> = Vec::new();
    let mut i: usize = from;
    while i < v.len()
        invariant
            from <= i <= v@.len(),
            r@ == v@.subrange(from as int, i as int),
        decreases v@.len() - i,
    {
        r.push(v[i]);
        i = i + 1;
    }
    r
}

/// The text of a complete byte sequence.
pub fn decode_bytes(bytes: &[u8]) -> (r: String)
    ensures
        r@ == decoded(bytes@),
{
    let mut decoder: StreamDecoder = StreamDecoder::new();
    let mut out: String = String::new();
    decoder.feed(bytes, &mut out);
    decoder.finish(&mut out);
    proof {
        assert(Seq::<u8>::empty() + bytes@ == bytes@);
        assert(Seq::<char>::empty() + settled(bytes@) == settled(bytes@));
    }
    out
}

/// A decoder that takes its bytes in any number of reads.
pub struct StreamDecoder {
    pending: Vec<u8>,
}

impl View for StreamDecoder {
    type V = Seq<u8>;

    /// The bytes that are kept back: the start of a character.
    closed spec fn view(&self) -> Seq<u8> {
        self.pending@
    }
}

impl StreamDecoder {
    /// A decoder that has seen no byte.
    pub fn new() -> (r: StreamDecoder)
        ensures
            r@ == Seq::<u8>::empty(),
    {
        StreamDecoder { pending: Vec::new() }
    }

    /// Appends to `out` the text that `bytes` settle, behind those kept back.
    pub fn feed(&mut self, bytes: &[u8], out: &mut String)
        ensures
            final(out)@ == old(out)@ + settled(old(self)@ + bytes@),
            final(self)@ == unsettled(old(self)@ + bytes@),
    {
        let mut v: Vec<u8> = Vec::new();
        let mut i: usize = 0;
        while i < self.pending.len()
            invariant
                i <= self.pending@.len(),
                v@ == self.pending@.take(i as int),
            decreases self.pending@.len() - i,
        {
            v.push(self.pending[i]);
            i = i + 1;
        }
        let mut j: usize = 0;
        while j < bytes.len()
            invariant
                j <= bytes@.len(),
                v@ == self.pending@ + bytes@.take(j as int),
            decreases bytes@.len() - j,
        {
            v.push(bytes[j]);
            j = j + 1;
        }
        assert(v@ == self.pending@ + bytes@);
        let rest: Vec<u8> = decode_into(&v, out);
        self.pending = rest;
    }

    /// Ends the stream: bytes still kept back are replaced.
    pub fn finish(&mut self, out: &mut String)
        ensures
            final(out)@ == old(out)@ + tail(old(self)@),
            final(self)@ == Seq::<u8>::empty(),
    {
        if self.pending.len() > 0 {
            out.push(REPLACEMENT);
        }
        proof {
            assert(old(out)@ + seq![REPLACEMENT] == old(out)@.push(REPLACEMENT));
        }
        self.pending = Vec::new();
    }
}

/// A piece that is settled stays what it is, whatever follows.
proof fn lemma_piece_stable(a: Seq<u8>, b: Seq<u8>)
    requires
        a.len() > 0,
        !(piece(a) is Partial),
    ensures
        piece(a + b) == piece(a),
        piece(a) matches Piece::Whole(c, n) ==> 0 < n <= a.len(),
        piece(a) matches Piece::Broken(n) ==> 0 < n <= a.len(),
{
    let ab = a + b;
    assert(ab[0] == a[0]);
    if a.len() > 1 {
        assert(ab[1] == a[1]);
    }
    if a.len() > 2 {
        assert(ab[2] == a[2]);
    }
    if a.len() > 3 {
        assert(ab[3] == a[3]);
    }
}

/// Decoding `a` and then `b` behind what `a` leaves open is decoding `a`
/// followed by `b`: where a stream is cut into reads does not matter.
pub proof fn decoding_is_incremental(a: Seq<u8>, b: Seq<u8>)
    ensures
        settled(a + b) == settled(a) + settled(unsettled(a) + b),
        unsettled(a + b) == unsettled(unsettled(a) + b),
    decreases a.len(),
{
    if a.len() == 0 {
        assert(a + b == b);
        assert(unsettled(a) + b == b);
    } else if piece(a) is Partial {
        assert(Seq::<char>::empty() + settled(a + b) == settled(a + b));
    } else {
        lemma_piece_stable(a, b);
        let n: int = match piece(a) {
            Piece::Whole(c, n) => n as int,
            Piece::Broken(n) => n as int,
            Piece::Partial => 0,
        };
        let c: char = match piece(a) {
            Piece::Whole(c, n) => c,
            _ => REPLACEMENT,
        };
        decoding_is_incremental(a.skip(n), b);
        assert((a + b).skip(n) == a.skip(n) + b);
        assert(seq![c] + (settled(a.skip(n)) + settled(unsettled(a.skip(n)) + b)) == (seq![c]
            + settled(a.skip(n))) + settled(unsettled(a.skip(n)) + b));
    }
}

/// What a decoder keeps back is the start of one character and settles nothing.
pub proof fn kept_back_is_a_partial_character(bytes: Seq<u8>)
    ensures
        unsettled(bytes).len() <= 3,
        settled(unsettled(bytes)) == Seq::<char>::empty(),
        unsettled(unsettled(bytes)) == unsettled(bytes),
    decreases bytes.len(),
{
    if bytes.len() > 0 && !(piece(bytes) is Partial) {
        lemma_piece_stable(bytes, Seq::empty());
        let n: int = match piece(bytes) {
            Piece::Whole(c, n) => n as int,
            Piece::Broken(n) => n as int,
            Piece::Partial => 0,
        };
        kept_back_is_a_partial_character(bytes.skip(n));
    }
}

/// The text and the bytes kept back after the reads `chunks`, from a decoder
/// that keeps back `pending`.
pub open spec fn stream(pending: Seq<u8>, chunks: Seq<Seq<u8>>) -> (Seq<char>, Seq<u8>)
    decreases chunks.len(),
{
    if chunks.len() == 0 {
        (Seq::empty(), pending)
    } else {
        let before = stream(pending, chunks.drop_last());
        let all = before.1 + chunks.last();
        (before.0 + settled(all), unsettled(all))
    }
}

/// All bytes of the reads `chunks`.
pub open spec fn all_bytes(chunks: Seq<Seq<u8>>) -> Seq<u8>
    decreases chunks.len(),
{
    if chunks.len() == 0 {
        Seq::empty()
    } else {
        all_bytes(chunks.drop_last()) + chunks.last()
    }
}

/// A stream that is fed in any reads and then finished gives the text of all its
/// bytes: no text is lost, added or changed by the way it was cut.
pub proof fn stream_decodes_all_bytes(chunks: Seq<Seq<u8>>)
    ensures
        stream(Seq::empty(), chunks).0 == settled(all_bytes(chunks)),
        stream(Seq::empty(), chunks).1 == unsettled(all_bytes(chunks)),
        stream(Seq::empty(), chunks).0 + tail(stream(Seq::empty(), chunks).1) == decoded(
            all_bytes(chunks),
        ),
    decreases chunks.len(),
{
    if chunks.len() > 0 {
        stream_decodes_all_bytes(chunks.drop_last());
        decoding_is_incremental(all_bytes(chunks.drop_last()), chunks.last());
    }
}

/// The table of lead bytes describes UTF-8: a whole piece is a well-formed
/// character, with its scalar value and length.
proof fn lemma_whole_is_valid(bytes: Seq<u8>)
    requires
        bytes.len() > 0,
    ensures
        piece(bytes) is Whole <==> vstd::utf8::valid_first_scalar(bytes),
        piece(bytes) matches Piece::Whole(c, n) ==> {
            &&& c == vstd::utf8::decode_first_scalar(bytes) as char
            &&& n == vstd::utf8::length_of_first_scalar(bytes)
        },
{
    let b0 = bytes[0];
    if b0 <= 0x7f {
        assert((b0 & 0x7f) as u32 <= 0x7f) by (bit_vector);
    } else if 0xc0 <= b0 <= 0xdf && bytes.len() >= 2 {
        let b1 = bytes[1];
        assert(0xc2 <= b0 <==> 0x80 <= ((((b0 & 0x1f) as u32) << 6) | ((b1 & 0x3f) as u32)))
            by (bit_vector)
            requires
                0xc0 <= b0 <= 0xdf,
        ;
        assert(((((b0 & 0x1f) as u32) << 6) | ((b1 & 0x3f) as u32)) <= 0x7ff) by (bit_vector);
    } else if 0xe0 <= b0 <= 0xef && bytes.len() >= 3 && vstd::utf8::is_continuation_byte(bytes[1])
        && vstd::utf8::is_continuation_byte(bytes[2]) {
        let b1 = bytes[1];
        let b2 = bytes[2];
        assert({
            let u = (((b0 & 0x0f) as u32) << 12) | (((b1 & 0x3f) as u32) << 6) | ((b2
                & 0x3f) as u32);
            (0x800 <= u && !(0xd800 <= u <= 0xdfff)) <==> ((b0 == 0xe0 ==> 0xa0 <= b1) && (b0
                == 0xed ==> b1 <= 0x9f))
        }) by (bit_vector)
            requires
                0xe0 <= b0 <= 0xef,
                0x80 <= b1 <= 0xbf,
                0x80 <= b2 <= 0xbf,
        ;
    } else if 0xf0 <= b0 <= 0xf7 && bytes.len() >= 4 && vstd::utf8::is_continuation_byte(bytes[1])
        && vstd::utf8::is_continuation_byte(bytes[2]) && vstd::utf8::is_continuation_byte(bytes[3]) {
        let b1 = bytes[1];
        let b2 = bytes[2];
        let b3 = bytes[3];
        assert({
            let u = (((b0 & 0x07) as u32) << 18) | (((b1 & 0x3f) as u32) << 12) | (((b2
                & 0x3f) as u32) << 6) | ((b3 & 0x3f) as u32);
            (0x10000 <= u <= 0x10ffff) <==> (b0 <= 0xf4 && (b0 == 0xf0 ==> 0x90 <= b1) && (b0
                == 0xf4 ==> b1 <= 0x8f))
        }) by (bit_vector)
            requires
                0xf0 <= b0 <= 0xf7,
                0x80 <= b1 <= 0xbf,
                0x80 <= b2 <= 0xbf,
                0x80 <= b3 <= 0xbf,
        ;
    }
}

/// Bytes that are UTF-8 decode to exactly the characters that they encode.
pub proof fn utf8_decodes_unchanged(bytes: Seq<u8>)
    requires
        vstd::utf8::valid_utf8(bytes),
    ensures
        decoded(bytes) == vstd::utf8::decode_utf8(bytes),
        settled(bytes) == vstd::utf8::decode_utf8(bytes),
        unsettled(bytes) == Seq::<u8>::empty(),
    decreases bytes.len(),
{
    if bytes.len() > 0 {
        lemma_whole_is_valid(bytes);
        let n = vstd::utf8::length_of_first_scalar(bytes);
        assert(bytes.skip(n) == vstd::utf8::pop_first_scalar(bytes));
        utf8_decodes_unchanged(bytes.skip(n));
    }
}

/// Text that is written as UTF-8 and decoded is the same text.
pub proof fn encoded_text_decodes_to_itself(text: Seq<char>)
    ensures
        decoded(vstd::utf8::encode_utf8(text)) == text,
{
    vstd::utf8::encode_utf8_valid_utf8(text);
    vstd::utf8::encode_utf8_decode_utf8(text);
    utf8_decodes_unchanged(vstd::utf8::encode_utf8(text));
}

/// A character at the start of `bytes` is found there.
proof fn lemma_character_piece(c: char, rest: Seq<u8>)
    ensures
        piece(vstd::utf8::encode_scalar(c as u32) + rest) == Piece::Whole(
            c,
            vstd::utf8::encode_scalar(c as u32).len() as usize,
        ),
        1 <= vstd::utf8::encode_scalar(c as u32).len() <= 4,
        fitting(vstd::utf8::encode_scalar(c as u32)) == vstd::utf8::encode_scalar(c as u32).len(),
        width(vstd::utf8::encode_scalar(c as u32)[0]) == vstd::utf8::encode_scalar(
            c as u32,
        ).len(),
        !vstd::utf8::is_continuation_byte(vstd::utf8::encode_scalar(c as u32)[0]),
{
    let e = vstd::utf8::encode_scalar(c as u32);
    let one = seq![c];
    assert(one.drop_first() == Seq::<char>::empty());
    assert(vstd::utf8::encode_utf8(one.drop_first()) == Seq::<u8>::empty());
    assert(vstd::utf8::encode_utf8(one) == e + Seq::<u8>::empty());
    assert(e + Seq::<u8>::empty() == e);
    vstd::utf8::encode_utf8_first_scalar(one);
    vstd::utf8::char_u32_cast(c, vstd::utf8::decode_first_scalar(e));
    lemma_whole_is_valid(e);
    lemma_piece_stable(e, rest);
}

/// Bytes behind which a character starts are decoded by themselves.
proof fn lemma_decoded_apart(a: Seq<u8>, b: Seq<u8>)
    requires
        b.len() == 0 || !vstd::utf8::is_continuation_byte(b[0]),
    ensures
        decoded(a + b) == decoded(a) + decoded(b),
    decreases a.len(),
{
    if a.len() == 0 {
        assert(a + b == b);
        assert(decoded(a) == Seq::<char>::empty());
        assert(Seq::<char>::empty() + decoded(b) == decoded(b));
    } else if b.len() == 0 {
        assert(a + b == a);
        assert(decoded(b) == Seq::<char>::empty());
        assert(decoded(a) + Seq::<char>::empty() == decoded(a));
    } else if piece(a) is Partial {
        let ab = a + b;
        assert(ab[0] == a[0]);
        assert(ab[a.len() as int] == b[0]);
        if a.len() > 1 {
            assert(ab[1] == a[1]);
        }
        if a.len() > 2 {
            assert(ab[2] == a[2]);
        }
        assert(piece(ab) == Piece::Broken(a.len() as usize));
        assert(ab.skip(a.len() as int) == b);
        assert(decoded(a) == seq![REPLACEMENT]);
        assert((seq![REPLACEMENT] + settled(b)) + tail(unsettled(b)) == seq![REPLACEMENT] + (
        settled(b) + tail(unsettled(b))));
    } else {
        lemma_piece_stable(a, b);
        let n: int = match piece(a) {
            Piece::Whole(c, n) => n as int,
            Piece::Broken(n) => n as int,
            Piece::Partial => 0,
        };
        let c: char = match piece(a) {
            Piece::Whole(c, n) => c,
            _ => REPLACEMENT,
        };
        let rest = a.skip(n);
        lemma_decoded_apart(rest, b);
        assert((a + b).skip(n) == rest + b);
        assert(decoded(a + b) == seq![c] + decoded(rest + b));
        assert(decoded(a) == seq![c] + decoded(rest));
        assert(seq![c] + (decoded(rest) + decoded(b)) == (seq![c] + decoded(rest)) + decoded(b));
    }
}

/// Text is found wherever it stands, whatever bytes stand before and behind it: it is
/// not touched by them, and they are decoded as if it were not there.
pub proof fn text_is_found_between_any_bytes(before: Seq<u8>, text: Seq<char>, after: Seq<u8>)
    requires
        text.len() > 0,
    ensures
        decoded(before + vstd::utf8::encode_utf8(text) + after) == decoded(before) + text + decoded(
            after,
        ),
{
    let e = vstd::utf8::encode_utf8(text);
    lemma_character_piece(text[0], vstd::utf8::encode_utf8(text.drop_first()));
    assert(e[0] == vstd::utf8::encode_scalar(text[0] as u32)[0]);
    assert(before + e + after == before + (e + after));
    assert((e + after)[0] == e[0]);
    lemma_decoded_apart(before, e + after);
    vstd::utf8::encode_utf8_valid_utf8(text);
    vstd::utf8::encode_utf8_decode_utf8(text);
    utf8_decodes_unchanged(e);
    decoding_is_incremental(e, after);
    assert(Seq::<u8>::empty() + after == after);
    assert((text + settled(after)) + tail(unsettled(after)) == text + decoded(after));
    assert(decoded(before) + (text + decoded(after)) == decoded(before) + text + decoded(after));
}

/// Whether `p` is the start of the UTF-8 form of the character `c`, or all of it.
pub open spec fn is_start_of(p: Seq<u8>, c: char) -> bool {
    let e = vstd::utf8::encode_scalar(c as u32);
    p.len() <= e.len() && e.take(p.len() as int) == p
}

/// Whether `p` is the start of the UTF-8 form of some character.
pub open spec fn begins_a_character(p: Seq<u8>) -> bool {
    exists|c: char| #[trigger] is_start_of(p, c)
}

/// What is the start of a character fits.
proof fn lemma_start_fits(bytes: Seq<u8>, k: int, c: char)
    requires
        1 <= k <= bytes.len(),
        is_start_of(bytes.take(k), c),
    ensures
        fitting(bytes) >= k,
        width(bytes[0]) == vstd::utf8::encode_scalar(c as u32).len(),
{
    let e = vstd::utf8::encode_scalar(c as u32);
    lemma_character_piece(c, Seq::empty());
    let p = bytes.take(k);
    assert(forall|i: int| 0 <= i < k ==> p[i] == bytes[i]);
    assert(forall|i: int| 0 <= i < k ==> e.take(k)[i] == e[i]);
    assert(e[0] == bytes[0]);
    if k > 1 {
        assert(e[1] == bytes[1]);
    }
    if k > 2 {
        assert(e[2] == bytes[2]);
    }
    if k > 3 {
        assert(e[3] == bytes[3]);
    }
}

/// What fits is the start of a character.
proof fn lemma_fitting_starts(bytes: Seq<u8>)
    requires
        bytes.len() > 0,
        width(bytes[0]) > 0,
    ensures
        1 <= fitting(bytes) <= bytes.len(),
        begins_a_character(bytes.take(fitting(bytes))),
{
    let w = width(bytes[0]);
    let k = fitting(bytes);
    let second: u8 = if bytes[0] == 0xe0 {
        0xa0
    } else if bytes[0] == 0xf0 {
        0x90
    } else {
        0x80
    };
    let e = Seq::new(
        w as nat,
        |i: int|
            if i < k {
                bytes[i]
            } else if i == 1 {
                second
            } else {
                0x80u8
            },
    );
    assert(e[0] == bytes[0]);
    assert(piece(e) is Whole);
    lemma_whole_is_valid(e);
    assert(vstd::utf8::length_of_first_scalar(e) == w);
    assert(vstd::utf8::pop_first_scalar(e) == Seq::<u8>::empty());
    assert(vstd::utf8::valid_utf8(Seq::<u8>::empty()));
    assert(vstd::utf8::valid_utf8(e));
    vstd::utf8::decode_utf8_first_scalar(e);
    let c = vstd::utf8::decode_first_scalar(e) as char;
    assert(vstd::utf8::take_first_scalar(e) == e);
    assert(e.take(k) == bytes.take(k));
    assert(is_start_of(bytes.take(k), c));
}

/// Bytes at which no character stands are replaced by `U+FFFD`, all bytes together that
/// could have been the start of one character, as many as there are, and at least one;
/// then decoding goes on behind them. Only where nothing follows them they are kept
/// back. The result is the number of those bytes.
pub proof fn broken_characters_are_replaced(bytes: Seq<u8>) -> (k: int)
    requires
        bytes.len() > 0,
        forall|c: char| !(#[trigger] vstd::utf8::encode_scalar(c as u32)).is_prefix_of(bytes),
    ensures
        1 <= k <= bytes.len(),
        k > 1 ==> begins_a_character(bytes.take(k)),
        k < bytes.len() ==> !begins_a_character(bytes.take(k + 1)),
        if k == bytes.len() && begins_a_character(bytes) {
            &&& settled(bytes) == Seq::<char>::empty()
            &&& unsettled(bytes) == bytes
            &&& decoded(bytes) == seq!['\u{fffd}']
        } else {
            &&& settled(bytes) == seq!['\u{fffd}'] + settled(bytes.skip(k))
            &&& unsettled(bytes) == unsettled(bytes.skip(k))
        },
{
    assert(!(piece(bytes) is Whole)) by {
        lemma_whole_is_valid(bytes);
        if piece(bytes) is Whole {
            let w = width(bytes[0]);
            let e = bytes.take(w);
            lemma_whole_is_valid(e);
            assert(piece(e) is Whole) by {
                assert(e[0] == bytes[0]);
                if w > 1 {
                    assert(e[1] == bytes[1]);
                }
                if w > 2 {
                    assert(e[2] == bytes[2]);
                }
                if w > 3 {
                    assert(e[3] == bytes[3]);
                }
            }
            assert(vstd::utf8::pop_first_scalar(e) == Seq::<u8>::empty());
            assert(vstd::utf8::valid_utf8(Seq::<u8>::empty()));
            assert(vstd::utf8::valid_utf8(e));
            vstd::utf8::decode_utf8_first_scalar(e);
            assert(vstd::utf8::take_first_scalar(e) == e);
            let c = vstd::utf8::decode_first_scalar(e) as char;
            assert(vstd::utf8::encode_scalar(c as u32) == e);
            assert(e.is_prefix_of(bytes));
        }
    }
    let w = width(bytes[0]);
    let k: int = if w == 0 {
        1
    } else {
        fitting(bytes)
    };
    if w > 0 {
        lemma_fitting_starts(bytes);
    }
    if k < bytes.len() && begins_a_character(bytes.take(k + 1)) {
        let c = choose|c: char| #[trigger] is_start_of(bytes.take(k + 1), c);
        lemma_start_fits(bytes, k + 1, c);
    }
    if k == bytes.len() {
        assert(bytes.take(k) == bytes);
        if begins_a_character(bytes) {
            let c = choose|c: char| #[trigger] is_start_of(bytes, c);
            lemma_start_fits(bytes, k, c);
            lemma_character_piece(c, Seq::empty());
            assert(piece(bytes) is Partial);
            assert(Seq::<char>::empty() + seq![REPLACEMENT] == seq!['\u{fffd}']);
        }
    }
    k
}

/// Bytes kept back at the end of a stream are replaced by one `U+FFFD`, and nothing is
/// added where there are none.
pub proof fn an_incomplete_end_is_replaced(pending: Seq<u8>)
    ensures
        pending.len() > 0 ==> tail(pending) == seq!['\u{fffd}'],
        pending.len() == 0 ==> tail(pending).len() == 0,
{
}

/// The bytes of all reads are the reads behind each other.
pub proof fn reads_are_joined_in_order(chunks: Seq<Seq<u8>>)
    ensures
        all_bytes(chunks) == chunks.flatten(),
    decreases chunks.len(),
{
    if chunks.len() > 0 {
        reads_are_joined_in_order(chunks.drop_last());
        chunks.drop_last().lemma_flatten_push(chunks.last());
        assert(chunks.drop_last().push(chunks.last()) == chunks);
    }
}

} // verus!
