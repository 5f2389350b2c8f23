use shell_engine::shell::stream::{
    drain_lines, emit, read_stream, Emission, OutputPump, ReadEvent, LINE_MODE_FORCE_FLUSH,
};
use shell_engine::util::{decode_bytes, StreamDecoder};
use shell_engine::CallbackMode;

fn raws(pieces: &[Emission]) -> Vec<String> {
    pieces.iter().map(|e| e.raw.clone()).collect()
}

fn texts(pieces: &[Emission]) -> Vec<String> {
    pieces.iter().map(|e| e.text.clone()).collect()
}

#[test]
fn lines_lose_their_end_for_the_callback_only() {
    let mut pump = OutputPump::new(CallbackMode::Line);
    assert!(pump.is_line_mode());
    let pieces = pump.feed(b"one\r\n\ntw");
    assert_eq!(raws(&pieces), vec!["one\r\n", "\n"]);
    assert_eq!(texts(&pieces), vec!["one", ""]);
    let pieces = pump.feed(b"o\n");
    assert_eq!(raws(&pieces), vec!["two\n"]);
    assert_eq!(texts(&pieces), vec!["two"]);
    assert!(pump.finish().is_empty());
}

#[test]
fn raw_chunks_come_as_they_are() {
    let mut pump = OutputPump::new(CallbackMode::Raw);
    assert!(!pump.is_line_mode());
    let pieces = pump.feed(b"one\r\ntw");
    assert_eq!(raws(&pieces), vec!["one\r\ntw"]);
    assert_eq!(texts(&pieces), vec!["one\r\ntw"]);
    assert!(pump.flush_idle().is_empty());
    assert!(pump.finish().is_empty());
}

#[test]
fn idle_time_gives_out_an_unfinished_line() {
    let mut pump = OutputPump::new(CallbackMode::Line);
    assert!(pump.feed(b"$ ").is_empty());
    let pieces = pump.flush_idle();
    assert_eq!(raws(&pieces), vec!["$ "]);
    assert_eq!(texts(&pieces), vec!["$ "]);
    assert!(pump.flush_idle().is_empty());
}

#[test]
fn overlong_line_is_given_out() {
    let mut carry = "x".repeat(LINE_MODE_FORCE_FLUSH - 1);
    assert!(drain_lines(&mut carry).is_empty());
    carry.push('y');
    let pieces = drain_lines(&mut carry);
    assert_eq!(pieces.len(), 1);
    assert_eq!(pieces[0].text.len(), 65536);
    assert_eq!(carry, "");
}

#[test]
fn emit_gives_out_no_empty_piece() {
    assert!(emit(String::new()).is_none());
    let piece = emit("a\n".to_string()).unwrap();
    assert_eq!(piece.raw, "a\n");
    assert_eq!(piece.text, "a\n");
}

#[test]
fn end_of_a_stream_gives_out_the_rest() {
    let mut pump = OutputPump::new(CallbackMode::Line);
    let step = read_stream(&mut pump, ReadEvent::Read(b"a\nb".to_vec()));
    assert!(!step.done);
    assert_eq!(texts(&step.pieces), vec!["a"]);
    let step = read_stream(&mut pump, ReadEvent::Read(Vec::new()));
    assert!(step.done);
    assert_eq!(texts(&step.pieces), vec!["b"]);
}

#[test]
fn failed_read_gives_out_the_rest() {
    let mut pump = OutputPump::new(CallbackMode::Line);
    assert!(read_stream(&mut pump, ReadEvent::Read(b"abc".to_vec())).pieces.is_empty());
    let step = read_stream(&mut pump, ReadEvent::Failed);
    assert!(step.done);
    assert_eq!(raws(&step.pieces), vec!["abc"]);
    assert_eq!(texts(&step.pieces), vec!["abc"]);
    let mut raw = OutputPump::new(CallbackMode::Raw);
    read_stream(&mut raw, ReadEvent::Read(b"x\xc3".to_vec()));
    let step = read_stream(&mut raw, ReadEvent::Failed);
    assert_eq!(raws(&step.pieces), vec!["\u{fffd}"]);
}

#[test]
fn idle_reader_flushes_lines_only() {
    let mut lines = OutputPump::new(CallbackMode::Line);
    read_stream(&mut lines, ReadEvent::Read(b"> ".to_vec()));
    let step = read_stream(&mut lines, ReadEvent::Idle);
    assert!(!step.done);
    assert_eq!(raws(&step.pieces), vec!["> "]);
    let mut raw = OutputPump::new(CallbackMode::Raw);
    assert!(read_stream(&mut raw, ReadEvent::Idle).pieces.is_empty());
}

#[test]
fn characters_survive_any_cut() {
    let text = "a\u{e9}\u{4e2d}\u{1f600}z";
    let bytes = text.as_bytes();
    for cut in 0..=bytes.len() {
        let mut decoder = StreamDecoder::new();
        let mut out = String::new();
        decoder.feed(&bytes[..cut], &mut out);
        decoder.feed(&bytes[cut..], &mut out);
        decoder.finish(&mut out);
        assert_eq!(out, text);
    }
}

#[test]
fn broken_bytes_become_replacement_characters() {
    assert_eq!(decode_bytes(b"a\xffb"), "a\u{fffd}b");
    assert_eq!(decode_bytes(b"\xe4\xb8"), "\u{fffd}");
    assert_eq!(decode_bytes(b"\xf0\x9f\x98\x80"), "\u{1f600}");
    for bytes in [
        &b"\xc0\x80x"[..],
        &b"\xed\xa0\x80"[..],
        &b"\xf4\x90\x80\x80"[..],
        &b"\xe1\x80\xe2\xf0\x91\x92\xf1\xbf\x41"[..],
    ] {
        assert_eq!(decode_bytes(bytes), String::from_utf8_lossy(bytes));
    }
}

#[test]
fn text_shown_before_it_is_given_out() {
    let mut pump = OutputPump::new(CallbackMode::Raw);
    assert_eq!(pump.decode(b"ab\xc3"), "ab");
    assert_eq!(raws(&pump.dispatch()), vec!["ab"]);
    assert_eq!(pump.decode_eof(), "\u{fffd}");
    assert_eq!(pump.decode_eof(), "\u{fffd}");
    assert_eq!(raws(&pump.finish()), vec!["\u{fffd}"]);
}

#[test]
fn buffered_text_is_the_decoded_stream() {
    let bytes = "x\u{e9}\r\ny\n\nz".as_bytes();
    for mode in [CallbackMode::Raw, CallbackMode::Line] {
        let mut pump = OutputPump::new(mode);
        let mut all = String::new();
        for b in bytes {
            for e in pump.feed(&[*b]) {
                all.push_str(&e.raw);
            }
            for e in pump.flush_idle() {
                all.push_str(&e.raw);
            }
        }
        for e in pump.finish() {
            all.push_str(&e.raw);
        }
        assert_eq!(all, decode_bytes(bytes));
    }
}
