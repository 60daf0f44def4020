//! A screen-sized buffer of characters with a cursor.

use vstd::prelude::*;
use crate::io::key::Key;

verus! {

/// A buffer of `width * height` characters and the cursor's index in it.
pub struct CharBuf {
    buf: Vec<char>,
    cur_pos: usize,
    eval_start_pos: usize,
    width: usize,
    height: usize,
}

/// The buffer's contents and cursor after a key: a character is written at the
/// cursor, which moves on; backspace blanks the cell at the cursor and moves it
/// back; the right arrow moves the cursor back and the left arrow moves it on;
/// other keys change nothing.
pub open spec fn char_buf_step(buf: Seq<char>, pos: int, key: Key) -> (Seq<char>, int) {
    match key {
        Key::Char(ch) => (buf.update(pos, ch), pos + 1),
        Key::Backspace => (buf.update(pos, ' '), pos - 1),
        Key::ArrowRight => (buf, pos - 1),
        Key::ArrowLeft => (buf, pos + 1),
        _ => (buf, pos),
    }
}

/// The keys on which the buffer can act from cursor `pos`: writing needs the
/// cursor inside the buffer, moving back needs it past the start.
pub open spec fn char_buf_accepts(len: int, pos: int, key: Key) -> bool {
    match key {
        Key::Char(_) => pos < len,
        Key::Backspace => 1 <= pos < len,
        Key::ArrowRight => pos >= 1,
        Key::ArrowLeft => pos + 1 <= usize::MAX,
        _ => true,
    }
}

/// A character typed and then erased leaves the cursor where it was; the
/// character's cell keeps the character and the next cell is blanked.
pub proof fn lemma_char_then_backspace(buf: Seq<char>, pos: int, ch: char)
    requires
        0 <= pos,
        pos + 1 < buf.len(),
    ensures
        ({
            let (b1, p1) = char_buf_step(buf, pos, Key::Char(ch));
            let (b2, p2) = char_buf_step(b1, p1, Key::Backspace);
            p2 == pos && b2 == buf.update(pos, ch).update(pos + 1, ' ')
        }),
{
}

/// Moving the cursor one way and then the other leaves the buffer as it was.
pub proof fn lemma_arrows_cancel(buf: Seq<char>, pos: int)
    ensures
        ({
            let (b1, p1) = char_buf_step(buf, pos, Key::ArrowLeft);
            char_buf_step(b1, p1, Key::ArrowRight) == (buf, pos)
        }),
        ({
            let (b1, p1) = char_buf_step(buf, pos, Key::ArrowRight);
            char_buf_step(b1, p1, Key::ArrowLeft) == (buf, pos)
        }),
{
}

impl CharBuf {
    /// The buffer's characters.
    pub closed spec fn contents(&self) -> Seq<char> {
        self.buf@
    }

    /// The cursor's index.
    pub closed spec fn position(&self) -> nat {
        self.cur_pos as nat
    }

    /// Where the evaluation of the text starts.
    pub closed spec fn eval_start(&self) -> nat {
        self.eval_start_pos as nat
    }

    /// The buffer's width and height.
    pub closed spec fn bounds(&self) -> (usize, usize) {
        (self.width, self.height)
    }

    /// A blank buffer of the given size with the cursor at the start.
    pub fn new(width: u16, height: u16) -> (res: CharBuf)
        ensures
            res.contents() == Seq::new((width as nat) * (height as nat), |i: int| ' '),
            res.position() == 0,
            res.eval_start() == 0,
            res.bounds() == (width as usize, height as usize),
    {
        let width = width as usize;
        let height = height as usize;
        assert(width * height <= 0xffff * 0xffff) by (nonlinear_arith)
            requires
                width <= 0xffff,
                height <= 0xffff,
        ;
        let n = width * height;
        let mut buf: Vec<char> = Vec::new();
        let mut i: usize = 0;
        while i < n
            invariant
                i <= n,
                buf@ == Seq::new(i as nat, |j: int| ' '),
            decreases n - i,
        {
            buf.push(' ');
            i = i + 1;
            assert(buf@ =~= Seq::new(i as nat, |j: int| ' '));
        }
        CharBuf { buf, cur_pos: 0, eval_start_pos: 0, width, height }
    }

    /// Applies a key and returns the cursor's index from before it.
    pub fn update(&mut self, key: Key) -> (res: usize)
        requires
            char_buf_accepts(old(self).contents().len() as int, old(self).position() as int, key),
        ensures
            res == old(self).position(),
            (final(self).contents(), final(self).position() as int) == char_buf_step(
                old(self).contents(),
                old(self).position() as int,
                key,
            ),
            final(self).eval_start() == old(self).eval_start(),
            final(self).bounds() == old(self).bounds(),
    {
        let last_pos = self.cur_pos;
        match key {
            Key::Char(ch) => {
                assert(self.cur_pos < self.buf.len());
                self.buf.set(self.cur_pos, ch);
                self.cur_pos = self.cur_pos + 1;
            },
            Key::Backspace => {
                self.buf.set(self.cur_pos, ' ');
                self.cur_pos = self.cur_pos - 1;
            },
            Key::ArrowRight => {
                self.cur_pos = self.cur_pos - 1;
            },
            Key::ArrowLeft => {
                self.cur_pos = self.cur_pos + 1;
            },
            _ => {},
        }
        last_pos
    }

    /// Blanks the whole buffer and puts the cursor at the start.
    pub fn clean(&mut self)
        ensures
            final(self).contents() == Seq::new(old(self).contents().len(), |i: int| ' '),
            final(self).position() == 0,
            final(self).eval_start() == old(self).eval_start(),
            final(self).bounds() == old(self).bounds(),
    {
        let mut i: usize = 0;
        while i < self.buf.len()
            invariant
                i <= self.buf.len() == old(self).buf.len(),
                self.bounds() == old(self).bounds(),
                self.eval_start_pos == old(self).eval_start_pos,
                forall|j: int| 0 <= j < i ==> self.buf@[j] == ' ',
            decreases self.buf.len() - i,
        {
            self.buf.set(i, ' ');
            i = i + 1;
        }
        self.cur_pos = 0;
        assert(self.buf@ =~= Seq::new(old(self).contents().len(), |i: int| ' '));
    }
}

} // verus!
