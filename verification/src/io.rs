//! Decoding of terminal input into keys, and the modes and errors of the
//! input/output handling.

pub mod key;
pub mod input_parser;
pub mod io_handler;
pub mod io_handler_simplified;
pub mod io_handler_new;

pub use key::Key;
pub use input_parser::InputParser;

use vstd::prelude::*;
use std::collections::VecDeque;
use input_parser::{ParseState, decode_byte, decode_step, decoder_wf};

verus! {

/// The first form of the input decoder, which knows no Enter or Backspace keys:
/// line feed, backspace and delete come out as characters.
pub struct IoParser {
    pub pending_keys: VecDeque<Key>,
    state: ParseState,
    multi_byte_buf: Vec<u8>,
}

impl IoParser {
    /// Where the decoder stands.
    pub closed spec fn parse_state(&self) -> ParseState {
        self.state
    }

    /// The keys decoded and not yet taken, oldest first.
    pub closed spec fn queued_keys(&self) -> Seq<Key> {
        self.pending_keys@
    }

    /// The bytes of the UTF-8 sequence being read.
    pub closed spec fn pending_bytes(&self) -> Seq<u8> {
        self.multi_byte_buf@
    }

    /// The decoder is in one of the states it can reach.
    pub open spec fn wf(&self) -> bool {
        decoder_wf(self.parse_state(), self.pending_bytes())
    }

    /// A decoder with no pending keys, outside any sequence.
    pub fn new() -> (res: IoParser)
        ensures
            res.queued_keys() == Seq::<Key>::empty(),
            res.parse_state() == ParseState::Normal,
            res.pending_bytes() == Seq::<u8>::empty(),
            res.wf(),
    {
        IoParser {
            pending_keys: VecDeque::new(),
            state: ParseState::Normal,
            multi_byte_buf: Vec::new(),
        }
    }

    /// Decodes the byte that polling the terminal's input produced; a key that it
    /// completes is queued at the end of `pending_keys`.
    pub fn poll_key(&mut self, byte: u8)
        requires
            old(self).wf(),
        ensures
            final(self).wf(),
            ({
                let (s, b, k) = decode_step(
                    old(self).parse_state(),
                    old(self).pending_bytes(),
                    byte,
                    false,
                );
                &&& final(self).parse_state() == s
                &&& final(self).pending_bytes() == b
                &&& final(self).queued_keys() == match k {
                    Some(key) => old(self).queued_keys().push(key),
                    None => old(self).queued_keys(),
                }
            }),
    {
        decode_byte(
            &mut self.state,
            &mut self.multi_byte_buf,
            &mut self.pending_keys,
            byte,
            false,
        );
    }
}

} // verus!
