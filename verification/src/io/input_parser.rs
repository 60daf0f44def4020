//! Decoding of the terminal's input bytes into key presses: escape sequences for
//! the arrow keys, and UTF-8 sequences for characters beyond ASCII.

use vstd::prelude::*;
use vstd::utf8::{decode_utf8, encode_scalar, encode_utf8, valid_utf8};
use std::collections::VecDeque;
use crate::io::key::Key;
use crate::terminal::ESC;

verus! {

/// The backspace byte; the delete byte `0x7f` is read as backspace too.
pub const BACKSPACE: u8 = 0x08;

/// Where the decoder stands in a multi-byte sequence.
#[derive(Clone, Copy, Debug, PartialEq, Eq, Structural)]
pub enum ParseState {
    /// After `ESC [`.
    Csi,
    /// After `ESC`.
    Escape,
    /// Inside a UTF-8 sequence, with this many continuation bytes still to come.
    Utf8(u8),
    Normal,
}

/// A byte that opens a three-byte UTF-8 sequence: `1110xxxx`.
pub open spec fn opens_three_byte(byte: u8) -> bool {
    0xe0 <= byte <= 0xef
}

/// A byte that the decoder takes as opening a four-byte UTF-8 sequence: `1111xxxx`.
pub open spec fn opens_four_byte(byte: u8) -> bool {
    0xf0 <= byte
}

/// A UTF-8 continuation byte: `10xxxxxx`.
pub open spec fn is_continuation(byte: u8) -> bool {
    0x80 <= byte <= 0xbf
}

/// The decoder's reaction to one byte: its next state, its next buffer of
/// pending UTF-8 bytes, and the key it produces, if any. `edit_keys` selects the
/// decoder that also recognizes line feed as Enter and backspace or delete as
/// Backspace. Bytes of the form `110xxxxx` do not open a sequence: they are read
/// as the character with that code, like every other byte without a meaning of
/// its own.
pub open spec fn decode_step(state: ParseState, buf: Seq<u8>, byte: u8, edit_keys: bool) -> (
    ParseState,
    Seq<u8>,
    Option<Key>,
) {
    match state {
        ParseState::Normal => if byte == ESC {
            (ParseState::Escape, buf, None)
        } else if edit_keys && byte == 0x0a {
            (ParseState::Normal, buf, Some(Key::Enter))
        } else if opens_three_byte(byte) {
            (ParseState::Utf8(2), buf.push(byte), None)
        } else if opens_four_byte(byte) {
            (ParseState::Utf8(3), buf.push(byte), None)
        } else if edit_keys && (byte == BACKSPACE || byte == 0x7f) {
            (ParseState::Normal, buf, Some(Key::Backspace))
        } else {
            (ParseState::Normal, buf, Some(Key::Char(byte as char)))
        },
        ParseState::Escape => if byte == 0x5b {
            (ParseState::Csi, buf, None)
        } else if byte == ESC {
            (ParseState::Escape, buf, Some(Key::Escape))
        } else {
            (ParseState::Normal, buf, Some(Key::Char(byte as char)))
        },
        ParseState::Utf8(remaining) => if !is_continuation(byte) {
            (ParseState::Normal, seq![], None)
        } else if remaining > 1 {
            (ParseState::Utf8((remaining - 1) as u8), buf.push(byte), None)
        } else if valid_utf8(buf.push(byte)) {
            (ParseState::Normal, seq![], Some(Key::Char(decode_utf8(buf.push(byte))[0])))
        } else {
            (ParseState::Normal, seq![], None)
        },
        ParseState::Csi => (
            ParseState::Normal,
            buf,
            if byte == 0x41 {
                Some(Key::ArrowUp)
            } else if byte == 0x42 {
                Some(Key::ArrowDown)
            } else if byte == 0x43 {
                Some(Key::ArrowRight)
            } else if byte == 0x44 {
                Some(Key::ArrowLeft)
            } else {
                None
            },
        ),
    }
}

/// The states the decoder can be in: outside a UTF-8 sequence nothing is
/// buffered; inside one the buffer holds its opening byte and the continuation
/// bytes read so far, and as many are still to come as make it complete.
pub open spec fn decoder_wf(state: ParseState, buf: Seq<u8>) -> bool {
    match state {
        ParseState::Utf8(r) => {
            &&& 1 <= r <= 3
            &&& buf.len() >= 1
            &&& (opens_three_byte(buf[0]) || opens_four_byte(buf[0]))
            &&& opens_three_byte(buf[0]) ==> buf.len() + r == 3
            &&& opens_four_byte(buf[0]) ==> buf.len() + r == 4
            &&& forall|i: int| 1 <= i < buf.len() ==> is_continuation(#[trigger] buf[i])
        },
        _ => buf.len() == 0,
    }
}

/// The result of decoding a run of bytes: final state, final buffer and the keys
/// produced, in order.
pub open spec fn decode_run(state: ParseState, buf: Seq<u8>, bytes: Seq<u8>, edit_keys: bool) -> (
    ParseState,
    Seq<u8>,
    Seq<Key>,
)
    decreases bytes.len(),
{
    if bytes.len() == 0 {
        (state, buf, seq![])
    } else {
        let (s1, b1, k) = decode_step(state, buf, bytes[0], edit_keys);
        let (s2, b2, ks) = decode_run(s1, b1, bytes.drop_first(), edit_keys);
        (
            s2,
            b2,
            match k {
                Some(key) => seq![key] + ks,
                None => ks,
            },
        )
    }
}

/// A character whose UTF-8 encoding takes three or four bytes comes out of the
/// decoder as that character when its bytes are fed in from the resting state.
pub proof fn lemma_decodes_wide_char(c: char, edit_keys: bool)
    requires
        encode_utf8(seq![c]).len() >= 3,
    ensures
        decode_run(ParseState::Normal, seq![], encode_utf8(seq![c]), edit_keys) == (
            ParseState::Normal,
            Seq::<u8>::empty(),
            seq![Key::Char(c)],
        ),
{
    let b = encode_utf8(seq![c]);
    vstd::utf8::encode_utf8_first_scalar(seq![c]);
    vstd::utf8::encode_utf8_valid_utf8(seq![c]);
    vstd::utf8::encode_utf8_decode_utf8(seq![c]);
    assert(encode_utf8(seq![c].drop_first()) =~= Seq::<u8>::empty());
    assert(b =~= encode_scalar(c as u32));
    let n = b.len();
    assert(n == 3 || n == 4);
    reveal_with_fuel(decode_run, 5);
    let e = Seq::<u8>::empty();
    if n == 3 {
        assert(opens_three_byte(b[0]));
        assert(e.push(b[0]).push(b[1]).push(b[2]) =~= b);
        assert(b.drop_first().drop_first().drop_first() =~= Seq::<u8>::empty());
        let r2 = decode_run(ParseState::Normal, e, b.drop_first().drop_first().drop_first(), edit_keys);
        assert(r2 == (ParseState::Normal, e, Seq::<Key>::empty()));
        assert(decode_run(ParseState::Normal, e, b, edit_keys).2 =~= seq![Key::Char(c)]);
    } else {
        assert(opens_four_byte(b[0]));
        assert(e.push(b[0]).push(b[1]).push(b[2]).push(b[3]) =~= b);
        assert(b.drop_first().drop_first().drop_first().drop_first() =~= Seq::<u8>::empty());
        assert(decode_run(ParseState::Normal, e, b, edit_keys).2 =~= seq![Key::Char(c)]);
    }
}

/// Checks that `bytes` form valid UTF-8, as `std::str::from_utf8` decides, and
/// gives the string they encode.
#[verifier::external_body]
fn str_from_utf8(bytes: &[u8]) -> (res: Option<&str>)
    ensures
        res is Some <==> valid_utf8(bytes@),
        res matches Some(s) ==> s@ == decode_utf8(bytes@),
{
    std::str::from_utf8(bytes).ok()
}

/// A complete three- or four-byte sequence that is valid UTF-8 encodes exactly
/// one character.
proof fn lemma_complete_sequence_one_char(b: Seq<u8>)
    requires
        valid_utf8(b),
        b.len() >= 1,
        opens_three_byte(b[0]) ==> b.len() == 3,
        opens_four_byte(b[0]) ==> b.len() == 4,
        opens_three_byte(b[0]) || opens_four_byte(b[0]),
    ensures
        decode_utf8(b).len() == 1,
{
    let rest = vstd::utf8::pop_first_scalar(b);
    assert(rest.len() == 0);
    assert(decode_utf8(rest) =~= Seq::<char>::empty());
}

/// Applies one step of the decoder to a state, a buffer and a queue of keys.
pub(crate) fn decode_byte(
    state: &mut ParseState,
    buf: &mut Vec<u8>,
    keys: &mut VecDeque<Key>,
    byte: u8,
    edit_keys: bool,
)
    requires
        decoder_wf(*old(state), old(buf)@),
    ensures
        ({
            let (s, b, k) = decode_step(*old(state), old(buf)@, byte, edit_keys);
            &&& *final(state) == s
            &&& final(buf)@ == b
            &&& final(keys)@ == match k {
                Some(key) => old(keys)@.push(key),
                None => old(keys)@,
            }
        }),
        decoder_wf(*final(state), final(buf)@),
{
    proof {
        assert(byte & 0xc0 == 0xe0 ==> false) by (bit_vector);
        assert(byte & 0xf0 == 0xe0 <==> 0xe0 <= byte <= 0xef) by (bit_vector);
        assert(byte & 0xf0 == 0xf0 <==> 0xf0 <= byte) by (bit_vector);
        assert(byte & 0xc0 == 0x80 <==> 0x80 <= byte <= 0xbf) by (bit_vector);
    }
    match *state {
        ParseState::Normal => {
            if byte == ESC {
                *state = ParseState::Escape;
            } else if edit_keys && byte == 0x0a {
                keys.push_back(Key::Enter);
            } else if byte & 0xc0 == 0xe0 {
                buf.push(byte);
                *state = ParseState::Utf8(1);
            } else if byte & 0xf0 == 0xe0 {
                buf.push(byte);
                *state = ParseState::Utf8(2);
            } else if byte & 0xf0 == 0xf0 {
                buf.push(byte);
                *state = ParseState::Utf8(3);
            } else if edit_keys && (byte == BACKSPACE || byte == 0x7f) {
                keys.push_back(Key::Backspace);
            } else {
                keys.push_back(Key::Char(byte as char));
            }
        },
        ParseState::Escape => {
            if byte == 0x5b {
                *state = ParseState::Csi;
            } else if byte == ESC {
                keys.push_back(Key::Escape);
            } else {
                *state = ParseState::Normal;
                keys.push_back(Key::Char(byte as char));
            }
        },
        ParseState::Utf8(remaining) => {
            if byte & 0xc0 != 0x80 {
                buf.clear();
                *state = ParseState::Normal;
                return;
            }
            buf.push(byte);
            if remaining > 1 {
                *state = ParseState::Utf8(remaining - 1);
            } else {
                let decoded = match str_from_utf8(buf.as_slice()) {
                    Some(s) => {
                        proof {
                            lemma_complete_sequence_one_char(buf@);
                        }
                        Some(s.get_char(0))
                    },
                    None => None,
                };
                buf.clear();
                *state = ParseState::Normal;
                if let Some(ch) = decoded {
                    keys.push_back(Key::Char(ch));
                }
            }
        },
        ParseState::Csi => {
            if byte == 0x41 {
                keys.push_back(Key::ArrowUp);
            } else if byte == 0x42 {
                keys.push_back(Key::ArrowDown);
            } else if byte == 0x43 {
                keys.push_back(Key::ArrowRight);
            } else if byte == 0x44 {
                keys.push_back(Key::ArrowLeft);
            }
            *state = ParseState::Normal;
        },
    }
}

/// The decoder of the terminal's input: bytes go in, key presses queue up in
/// `pending_keys`.
pub struct InputParser {
    pub pending_keys: VecDeque<Key>,
    state: ParseState,
    multi_byte_buf: Vec<u8>,
}

impl InputParser {
    /// Where the decoder stands.
    pub closed spec fn parse_state(&self) -> ParseState {
        self.state
    }

    /// The keys decoded and not yet taken, oldest first.
    pub closed spec fn queued_keys(&self) -> Seq<Key> {
        self.pending_keys@
    }

    /// The bytes of the UTF-8 sequence being read.
    pub closed spec fn pending_bytes(&self) -> Seq<u8> {
        self.multi_byte_buf@
    }

    /// The decoder is in one of the states it can reach.
    pub open spec fn wf(&self) -> bool {
        decoder_wf(self.parse_state(), self.pending_bytes())
    }

    /// A decoder with no pending keys, outside any sequence.
    pub fn new() -> (res: InputParser)
        ensures
            res.queued_keys() == Seq::<Key>::empty(),
            res.parse_state() == ParseState::Normal,
            res.pending_bytes() == Seq::<u8>::empty(),
            res.wf(),
    {
        InputParser {
            pending_keys: VecDeque::new(),
            state: ParseState::Normal,
            multi_byte_buf: Vec::new(),
        }
    }

    /// Decodes the byte that polling the terminal's input produced; a key that it
    /// completes is queued at the end of `pending_keys`.
    pub fn poll_key(&mut self, byte: u8)
        requires
            old(self).wf(),
        ensures
            final(self).wf(),
            ({
                let (s, b, k) = decode_step(
                    old(self).parse_state(),
                    old(self).pending_bytes(),
                    byte,
                    true,
                );
                &&& final(self).parse_state() == s
                &&& final(self).pending_bytes() == b
                &&& final(self).queued_keys() == match k {
                    Some(key) => old(self).queued_keys().push(key),
                    None => old(self).queued_keys(),
                }
            }),
    {
        decode_byte(
            &mut self.state,
            &mut self.multi_byte_buf,
            &mut self.pending_keys,
            byte,
            true,
        );
    }
}

} // verus!
