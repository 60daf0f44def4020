use fcalc::char_buf::CharBuf;
use fcalc::io::key::Key;
use fcalc::io::{InputParser, IoParser};

fn feed(p: &mut InputParser, bytes: &[u8]) -> Vec<Key> {
    for b in bytes {
        p.poll_key(*b);
    }
    p.pending_keys.drain(..).collect()
}

fn feed_first_form(p: &mut IoParser, bytes: &[u8]) -> Vec<Key> {
    for b in bytes {
        p.poll_key(*b);
    }
    p.pending_keys.drain(..).collect()
}

#[test]
fn ascii_and_edit_keys() {
    let mut p = InputParser::new();
    assert_eq!(
        feed(&mut p, b"a\n\x7f\x08 "),
        vec![Key::Char('a'), Key::Enter, Key::Backspace, Key::Backspace, Key::Char(' ')]
    );
}

#[test]
fn arrow_and_escape_sequences() {
    let mut p = InputParser::new();
    assert_eq!(
        feed(&mut p, b"\x1b[A\x1b[B\x1b[C\x1b[D\x1b[Z"),
        vec![Key::ArrowUp, Key::ArrowDown, Key::ArrowRight, Key::ArrowLeft]
    );
    assert_eq!(feed(&mut p, b"\x1b\x1b\x1b"), vec![Key::Escape, Key::Escape]);
    assert_eq!(feed(&mut p, b"x"), vec![Key::Char('x')]);
}

#[test]
fn wide_utf8_characters() {
    let mut p = InputParser::new();
    let euro = "€".as_bytes().to_vec();
    let smile = "😀".as_bytes().to_vec();
    assert_eq!(feed(&mut p, &euro), vec![Key::Char('€')]);
    assert_eq!(feed(&mut p, &smile), vec![Key::Char('😀')]);
    assert_eq!(feed(&mut p, "√".as_bytes()), vec![Key::Char('√')]);
}

#[test]
fn two_byte_sequences_come_out_as_latin1() {
    let mut p = InputParser::new();
    assert_eq!(feed(&mut p, "é".as_bytes()), vec![Key::Char('\u{c3}'), Key::Char('\u{a9}')]);
    assert_eq!(
        feed(&mut p, "÷×".as_bytes()),
        vec![Key::Char('\u{c3}'), Key::Char('\u{b7}'), Key::Char('\u{c3}'), Key::Char('\u{97}')]
    );
}

#[test]
fn malformed_sequences_are_dropped() {
    let mut p = InputParser::new();
    assert_eq!(feed(&mut p, &[0xe2, 0x41, b'b']), vec![Key::Char('b')]);
    assert_eq!(feed(&mut p, &[0xe0, 0x80, 0x80, b'c']), vec![Key::Char('c')]);
    assert_eq!(feed(&mut p, &[0xf8, 0x80, 0x80, 0x80]), vec![]);
    assert_eq!(feed(&mut p, b"d"), vec![Key::Char('d')]);
}

#[test]
fn first_form_has_no_edit_keys() {
    let mut p = IoParser::new();
    assert_eq!(
        feed_first_form(&mut p, b"\n\x7f\x1b[C"),
        vec![Key::Char('\n'), Key::Char('\u{7f}'), Key::ArrowRight]
    );
    assert_eq!(feed_first_form(&mut p, "€".as_bytes()), vec![Key::Char('€')]);
}

#[test]
fn char_buf_moves_cursor() {
    let mut b = CharBuf::new(4, 2);
    assert_eq!(b.update(Key::Char('a')), 0);
    assert_eq!(b.update(Key::ArrowLeft), 1);
    assert_eq!(b.update(Key::ArrowRight), 2);
    assert_eq!(b.update(Key::Backspace), 1);
    assert_eq!(b.update(Key::Enter), 0);
    assert_eq!(b.update(Key::Char('z')), 0);
    b.clean();
    assert_eq!(b.update(Key::ArrowUp), 0);
}
