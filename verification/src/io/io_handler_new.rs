//! The form of the line-based handler that asks the terminal where the cursor
//! stands, and moves between operands: reading the terminal's cursor report,
//! and finding an operand's column in a line.

use vstd::prelude::*;
use crate::fold_expr::{FoldExpr, next_index, previous_index};
use crate::operation::Operation;
use crate::io::io_handler_simplified::IoError;
use crate::io::key::Key;
use crate::lexical::char_views;
use crate::terminal::ESC;
use crate::text::{is_whitespace, spec_is_digit, spec_is_whitespace};

verus! {

/// Where the reading of the cursor report `ESC [ row ; col R` stands.
#[derive(Clone, Copy, Debug, PartialEq, Eq, Structural)]
pub enum RowReport {
    AwaitEscape,
    AwaitBracket,
    AwaitDigit,
    /// Reading the row's digits; the row read so far.
    Row(u16),
}

/// The reading's next state after one byte, or `None` where the report is
/// refused. Every byte after the row's first digit must be a digit as well, so
/// the separator that follows the row is refused too.
pub open spec fn row_report_step(state: RowReport, byte: u8) -> Option<RowReport> {
    match state {
        RowReport::AwaitEscape => if byte == ESC {
            Some(RowReport::AwaitBracket)
        } else {
            None
        },
        RowReport::AwaitBracket => if byte == 0x5b {
            Some(RowReport::AwaitDigit)
        } else {
            None
        },
        RowReport::AwaitDigit => if 0x30 <= byte <= 0x39 {
            Some(RowReport::Row((byte - 0x30) as u16))
        } else {
            None
        },
        RowReport::Row(r) => if 0x30 <= byte <= 0x39 {
            Some(RowReport::Row((10 * r + (byte - 0x30)) as u16))
        } else {
            None
        },
    }
}

/// The bytes on which the reading can act: a row must not grow past what a
/// `u16` holds.
pub open spec fn row_report_accepts(state: RowReport, byte: u8) -> bool {
    match state {
        RowReport::Row(r) => 0x30 <= byte <= 0x39 ==> 10 * r + (byte - 0x30) <= u16::MAX,
        _ => true,
    }
}

/// Takes the next byte of the cursor report.
pub fn read_row_report(state: RowReport, byte: u8) -> (res: Result<RowReport, IoError>)
    requires
        row_report_accepts(state, byte),
    ensures
        row_report_step(state, byte) matches Some(next) ==> (res matches Ok(n) && n == next),
        row_report_step(state, byte) is None ==> (res matches Err(IoError::MissingRowInformation)),
{
    match state {
        RowReport::AwaitEscape => if byte == ESC {
            Ok(RowReport::AwaitBracket)
        } else {
            Err(IoError::MissingRowInformation)
        },
        RowReport::AwaitBracket => if byte == 0x5b {
            Ok(RowReport::AwaitDigit)
        } else {
            Err(IoError::MissingRowInformation)
        },
        RowReport::AwaitDigit => if 0x30 <= byte && byte <= 0x39 {
            Ok(RowReport::Row((byte - 0x30) as u16))
        } else {
            Err(IoError::MissingRowInformation)
        },
        RowReport::Row(r) => if 0x30 <= byte && byte <= 0x39 {
            Ok(RowReport::Row(10 * r + ((byte - 0x30) as u16)))
        } else {
            Err(IoError::MissingRowInformation)
        },
    }
}

/// The column scan towards operand `target`: from column `col`, with `idx`
/// operands begun so far and `seen_digit` telling whether the current word has
/// a digit, up to the column after the first digit of operand `target`.
pub open spec fn operand_scan(line: Seq<char>, col: int, idx: int, seen_digit: bool, target: int) -> int
    decreases line.len() - col,
{
    if col < line.len() && idx != target + 1 {
        if spec_is_whitespace(line[col]) {
            operand_scan(line, col + 1, idx, false, target)
        } else if !seen_digit && spec_is_digit(line[col]) {
            operand_scan(line, col + 1, idx + 1, true, target)
        } else {
            operand_scan(line, col + 1, idx, seen_digit, target)
        }
    } else {
        col
    }
}

/// The column at the end of the word that holds the first digit of operand
/// `target` (counted from 0), searching from column 1 past the operator.
pub open spec fn operand_column_spec(line: Seq<char>, target: int) -> int {
    word_end(line, operand_scan(line, 1, 0, false, target))
}

/// The first white space at or after `col`, or the end of the line.
pub open spec fn word_end(line: Seq<char>, col: int) -> int
    decreases line.len() - col,
{
    if col < line.len() && !spec_is_whitespace(line[col]) {
        word_end(line, col + 1)
    } else {
        col
    }
}

/// Where the cursor goes when it moves to operand `target` of the line: the end
/// of the word holding the operand's first digit.
pub fn operand_column(line: &[char], target: usize) -> (res: usize)
    requires
        target < usize::MAX,
    ensures
        res == operand_column_spec(line@, target as int),
{
    let mut cur_col: usize = 1;
    let mut op_idx: usize = 0;
    let mut seen_digit = false;
    if line.len() < 1 {
        assert(operand_scan(line@, 1, 0, false, target as int) == 1);
        assert(word_end(line@, 1) == 1);
        return 1;
    }
    while cur_col < line.len() && op_idx != target + 1
        invariant
            1 <= cur_col <= line.len(),
            op_idx <= target + 1,
            target < usize::MAX,
            operand_scan(line@, cur_col as int, op_idx as int, seen_digit, target as int)
                == operand_scan(line@, 1, 0, false, target as int),
        decreases line.len() - cur_col,
    {
        let ch = line[cur_col];
        if is_whitespace(ch) {
            seen_digit = false;
        } else if !seen_digit && '0' <= ch && ch <= '9' {
            seen_digit = true;
            op_idx = op_idx + 1;
        }
        cur_col = cur_col + 1;
    }
    let ghost start = cur_col as int;
    while cur_col < line.len() && !is_whitespace(line[cur_col])
        invariant
            start <= cur_col <= line.len(),
            word_end(line@, cur_col as int) == word_end(line@, start),
        decreases line.len() - cur_col,
    {
        cur_col = cur_col + 1;
    }
    cur_col
}

/// An inconsistency in the handler's state.
#[derive(Clone, Copy, Debug, PartialEq, Eq, Structural)]
pub enum InternalStateError {
    FoldExprError,
    NoFoldExpr,
    OutOfSync,
    SyntaxError,
}

impl InternalStateError {
    /// The human-readable description of the error.
    pub fn message(&self) -> (res: String)
        ensures
            *self == InternalStateError::FoldExprError ==> res@
                == "Internal fold expression error occurred!"@,
            *self == InternalStateError::NoFoldExpr ==> res@ == "No fold expression to work with!"@,
            *self == InternalStateError::OutOfSync ==> res@
                == "Fold expressions and their string representations are out of sync!"@,
            *self == InternalStateError::SyntaxError ==> res@
                == "Fold expression parsing failed due to syntax error!"@,
    {
        match self {
            InternalStateError::FoldExprError => crate::text::string_of(
                "Internal fold expression error occurred!",
            ),
            InternalStateError::NoFoldExpr => crate::text::string_of(
                "No fold expression to work with!",
            ),
            InternalStateError::OutOfSync => crate::text::string_of(
                "Fold expressions and their string representations are out of sync!",
            ),
            InternalStateError::SyntaxError => crate::text::string_of(
                "Fold expression parsing failed due to syntax error!",
            ),
        }
    }
}

/// What the line-based handler does with a key.
#[derive(Clone, Copy, Debug, PartialEq, Eq, Structural)]
pub enum LineAction {
    /// Nothing: the calculation goes on as it stands.
    Stay,
    /// Collapse the only expression to its value, then redraw.
    Collapse,
    /// Hand the top expression's value to the expression below it, drop the top
    /// expression, then redraw.
    Merge,
    /// End with the value of the bottom expression.
    Quit,
    /// Move to the next operand (`true`) or to the previous one (`false`).
    JumpOperand(bool),
    /// Reverse the top expression's operands, then redraw.
    Reverse,
    /// Move the cursor one column right.
    MoveRight,
    /// Move the cursor one column left.
    MoveLeft,
    /// Insert the character at the cursor, then update and redraw.
    Insert(char),
}

/// The action for `key`, given whether the last line has a syntax error and how
/// many expressions are stacked.
pub open spec fn line_action_spec(key: Key, syntax_error: bool, depth: nat) -> LineAction {
    match key {
        Key::Enter => if syntax_error {
            LineAction::Stay
        } else if depth < 2 {
            LineAction::Collapse
        } else {
            LineAction::Merge
        },
        Key::Char(c) => if c == 'q' {
            LineAction::Quit
        } else if c == 'e' {
            LineAction::JumpOperand(true)
        } else if c == 'E' {
            LineAction::JumpOperand(false)
        } else if c == 'r' {
            LineAction::Reverse
        } else {
            LineAction::Insert(c)
        },
        Key::ArrowRight => LineAction::MoveRight,
        Key::ArrowLeft => LineAction::MoveLeft,
        _ => LineAction::Stay,
    }
}

/// The line-based handler's state: a stack of fold expressions, each with the
/// line that shows it, the cursor's column in the last line and the terminal
/// row where the lines start. The expression at the top of the stack is the one
/// being edited; the one below it receives its value.
pub struct IoHandler<T> {
    fold_exprs: Vec<FoldExpr<T>>,
    lines: Vec<Vec<char>>,
    cur_col: usize,
    cur_row: u16,
    syntax_error: bool,
    term_width: u16,
    term_height: u16,
}

impl<T: Copy> IoHandler<T> {
    /// The fold expressions, bottom first.
    pub closed spec fn exprs(&self) -> Seq<FoldExpr<T>> {
        self.fold_exprs@
    }

    /// The lines, bottom first.
    pub closed spec fn line_views(&self) -> Seq<Seq<char>> {
        char_views(self.lines@)
    }

    /// The cursor's column.
    pub closed spec fn col(&self) -> int {
        self.cur_col as int
    }

    /// The terminal row of the first line.
    pub closed spec fn row(&self) -> u16 {
        self.cur_row
    }

    /// Whether the last line did not parse.
    pub closed spec fn has_syntax_error(&self) -> bool {
        self.syntax_error
    }

    /// The terminal's width and height.
    pub closed spec fn dims(&self) -> (u16, u16) {
        (self.term_width, self.term_height)
    }

    /// A handler with a single expression shown by `root_line`, the cursor at
    /// column `cur_col`.
    pub fn new(
        root: FoldExpr<T>,
        root_line: Vec<char>,
        cur_col: usize,
        cur_row: u16,
        term_width: u16,
        term_height: u16,
    ) -> (res: Self)
        ensures
            res.exprs() == seq![root],
            res.line_views() == seq![root_line@],
            res.col() == cur_col,
            res.row() == cur_row,
            !res.has_syntax_error(),
            res.dims() == (term_width, term_height),
    {
        let mut fold_exprs: Vec<FoldExpr<T>> = Vec::new();
        fold_exprs.push(root);
        let mut lines: Vec<Vec<char>> = Vec::new();
        let ghost v = root_line@;
        lines.push(root_line);
        assert(char_views(lines@) =~= seq![v]);
        assert(fold_exprs@ =~= seq![root]);
        IoHandler {
            fold_exprs,
            lines,
            cur_col,
            cur_row,
            syntax_error: false,
            term_width,
            term_height,
        }
    }

    /// The fold expressions, bottom first.
    pub fn fold_exprs(&self) -> (res: &Vec<FoldExpr<T>>)
        ensures
            res@ == self.exprs(),
    {
        &self.fold_exprs
    }

    /// The lines, bottom first.
    pub fn lines(&self) -> (res: &Vec<Vec<char>>)
        ensures
            char_views(res@) == self.line_views(),
    {
        &self.lines
    }

    /// The cursor's column.
    pub fn cur_col(&self) -> (res: usize)
        ensures
            res == self.col(),
    {
        self.cur_col
    }

    /// The terminal row of the first line.
    pub fn cur_row(&self) -> (res: u16)
        ensures
            res == self.row(),
    {
        self.cur_row
    }

    /// Whether the last line did not parse.
    pub fn syntax_error(&self) -> (res: bool)
        ensures
            res == self.has_syntax_error(),
    {
        self.syntax_error
    }

    /// What the handler does with `key` in its present state.
    pub fn action_for(&self, key: Key) -> (res: LineAction)
        ensures
            res == line_action_spec(key, self.has_syntax_error(), self.exprs().len()),
    {
        match key {
            Key::Enter => if self.syntax_error {
                LineAction::Stay
            } else if self.fold_exprs.len() < 2 {
                LineAction::Collapse
            } else {
                LineAction::Merge
            },
            Key::Char(c) => if c == 'q' {
                LineAction::Quit
            } else if c == 'e' {
                LineAction::JumpOperand(true)
            } else if c == 'E' {
                LineAction::JumpOperand(false)
            } else if c == 'r' {
                LineAction::Reverse
            } else {
                LineAction::Insert(c)
            },
            Key::ArrowRight => LineAction::MoveRight,
            Key::ArrowLeft => LineAction::MoveLeft,
            _ => LineAction::Stay,
        }
    }

    /// Records whether the last line parsed.
    pub fn set_syntax_error(&mut self, error: bool)
        ensures
            final(self).has_syntax_error() == error,
            final(self).exprs() == old(self).exprs(),
            final(self).line_views() == old(self).line_views(),
            final(self).col() == old(self).col(),
            final(self).row() == old(self).row(),
            final(self).dims() == old(self).dims(),
    {
        self.syntax_error = error;
    }

    /// Moves the cursor one column right, but not past the end of the last line.
    pub fn move_right(&mut self) -> (res: Result<(), InternalStateError>)
        requires
            old(self).col() < usize::MAX,
        ensures
            old(self).line_views().len() == 0 ==> res == Err::<(), InternalStateError>(
                InternalStateError::OutOfSync,
            ) && final(self).col() == old(self).col(),
            old(self).line_views().len() > 0 ==> res is Ok && final(self).col() == {
                let len = old(self).line_views().last().len() as int;
                if old(self).col() + 1 < len {
                    old(self).col() + 1
                } else {
                    len
                }
            },
            final(self).exprs() == old(self).exprs(),
            final(self).line_views() == old(self).line_views(),
            final(self).row() == old(self).row(),
            final(self).has_syntax_error() == old(self).has_syntax_error(),
            final(self).dims() == old(self).dims(),
    {
        let n = self.lines.len();
        if n == 0 {
            return Err(InternalStateError::OutOfSync);
        }
        let len = self.lines[n - 1].len();
        assert(self.line_views().last() == self.lines@[n - 1]@);
        self.cur_col = if self.cur_col + 1 < len {
            self.cur_col + 1
        } else {
            len
        };
        Ok(())
    }

    /// Moves the cursor one column left, but not before column `floor`.
    pub fn move_left(&mut self, floor: usize)
        ensures
            final(self).col() == if old(self).col() <= floor {
                floor as int
            } else {
                old(self).col() - 1
            },
            final(self).exprs() == old(self).exprs(),
            final(self).line_views() == old(self).line_views(),
            final(self).row() == old(self).row(),
            final(self).has_syntax_error() == old(self).has_syntax_error(),
            final(self).dims() == old(self).dims(),
    {
        self.cur_col = if self.cur_col <= floor {
            floor
        } else {
            self.cur_col - 1
        };
    }

    /// Makes the next (or, backwards, the previous) operand of the top
    /// expression the current one and moves the cursor to it; gives the new
    /// column, or `None` if the expression has no current operand.
    pub fn jump_operand(&mut self, forward: bool) -> (res: Result<Option<usize>, InternalStateError>)
        requires
            old(self).exprs().len() > 0 ==> ({
                let e = old(self).exprs().last();
                &&& e.wf()
                &&& e.operand_seq().len() > 0
                &&& e.operand_seq().len() < usize::MAX
            }),
        ensures
            old(self).exprs().len() == 0 ==> res == Err::<Option<usize>, InternalStateError>(
                InternalStateError::NoFoldExpr,
            ),
            old(self).exprs().len() > 0 && old(self).line_views().len() == 0 ==> res == Err::<
                Option<usize>,
                InternalStateError,
            >(InternalStateError::OutOfSync),
            res is Err ==> final(self).exprs() == old(self).exprs() && final(self).col()
                == old(self).col(),
            old(self).exprs().len() > 0 && old(self).line_views().len() > 0 ==> ({
                let e = old(self).exprs().last();
                let n = old(self).exprs().len() - 1;
                let len = e.operand_seq().len() as int;
                match e.cur() {
                    None => res == Ok::<Option<usize>, InternalStateError>(None) && final(self).exprs() == old(self).exprs() && final(self).col() == old(self).col(),
                    Some(i) => {
                        let j = if forward {
                            next_index(i as int, len)
                        } else {
                            previous_index(i as int, len)
                        };
                        let col = operand_column_spec(old(self).line_views().last(), j);
                        &&& res == Ok::<Option<usize>, InternalStateError>(Some(col as usize))
                        &&& final(self).col() == col
                        &&& final(self).exprs().len() == old(self).exprs().len()
                        &&& forall|k: int|
                            0 <= k < n ==> #[trigger] final(self).exprs()[k] == old(self).exprs()[k]
                        &&& final(self).exprs()[n].op() == e.op()
                        &&& final(self).exprs()[n].operand_seq() == e.operand_seq()
                        &&& final(self).exprs()[n].cur() == Some(j as usize)
                        &&& final(self).exprs()[n].wf()
                    },
                }
            }),
            final(self).line_views() == old(self).line_views(),
            final(self).row() == old(self).row(),
            final(self).has_syntax_error() == old(self).has_syntax_error(),
            final(self).dims() == old(self).dims(),
    {
        let n = self.fold_exprs.len();
        if n == 0 {
            return Err(InternalStateError::NoFoldExpr);
        }
        let m = self.lines.len();
        if m == 0 {
            return Err(InternalStateError::OutOfSync);
        }
        let mut expr = self.fold_exprs.pop().unwrap();
        assert(expr == old(self).exprs().last());
        let moved = if forward {
            expr.next_operand()
        } else {
            expr.previous_operand()
        };
        self.fold_exprs.push(expr);
        assert(self.fold_exprs@ =~= old(self).exprs().update(n - 1, expr));
        match moved {
            None => Ok(None),
            Some(op) => {
                assert(self.line_views().last() == self.lines@[m - 1]@);
                let col = operand_column(self.lines[m - 1].as_slice(), op);
                self.cur_col = col;
                Ok(Some(col))
            },
        }
    }

    /// Reverses the operands of the top expression, unless the last line has a
    /// syntax error; says whether it did.
    pub fn reverse_last(&mut self) -> (res: Result<bool, InternalStateError>)
        ensures
            old(self).has_syntax_error() ==> res == Ok::<bool, InternalStateError>(false)
                && final(self).exprs() == old(self).exprs(),
            !old(self).has_syntax_error() && old(self).exprs().len() == 0 ==> res == Err::<
                bool,
                InternalStateError,
            >(InternalStateError::NoFoldExpr) && final(self).exprs() == old(self).exprs(),
            !old(self).has_syntax_error() && old(self).exprs().len() > 0 ==> ({
                let n = old(self).exprs().len() - 1;
                let e = old(self).exprs().last();
                &&& res == Ok::<bool, InternalStateError>(true)
                &&& final(self).exprs().len() == old(self).exprs().len()
                &&& forall|k: int|
                    0 <= k < n ==> #[trigger] final(self).exprs()[k] == old(self).exprs()[k]
                &&& final(self).exprs()[n].op() == e.op()
                &&& final(self).exprs()[n].operand_seq() == e.operand_seq().reverse()
                &&& final(self).exprs()[n].cur() == e.cur()
            }),
            final(self).line_views() == old(self).line_views(),
            final(self).col() == old(self).col(),
            final(self).row() == old(self).row(),
            final(self).has_syntax_error() == old(self).has_syntax_error(),
            final(self).dims() == old(self).dims(),
    {
        if self.syntax_error {
            return Ok(false);
        }
        let n = self.fold_exprs.len();
        if n == 0 {
            return Err(InternalStateError::NoFoldExpr);
        }
        let mut expr = self.fold_exprs.pop().unwrap();
        assert(expr == old(self).exprs().last());
        expr.reverse();
        self.fold_exprs.push(expr);
        assert(self.fold_exprs@ =~= old(self).exprs().update(n - 1, expr));
        Ok(true)
    }

    /// Gives the top expression the parts of a freshly read line, as
    /// [`FoldExpr::assign_parsed`] takes them.
    pub fn reassign_last(&mut self, operation: Operation, operands: Vec<T>, cur_operand: Option<usize>) -> (res: Result<(), InternalStateError>)
        ensures
            old(self).exprs().len() == 0 ==> res == Err::<(), InternalStateError>(
                InternalStateError::NoFoldExpr,
            ) && final(self).exprs() == old(self).exprs(),
            old(self).exprs().len() > 0 ==> ({
                let n = old(self).exprs().len() - 1;
                &&& res is Ok
                &&& final(self).exprs().len() == old(self).exprs().len()
                &&& forall|k: int|
                    0 <= k < n ==> #[trigger] final(self).exprs()[k] == old(self).exprs()[k]
                &&& final(self).exprs()[n].wf()
                &&& final(self).exprs()[n].op() == operation
                &&& final(self).exprs()[n].operand_seq() == operands@
                &&& final(self).exprs()[n].cur() == match cur_operand {
                    Some(idx) => if idx <= operands.len() {
                        Some(idx)
                    } else {
                        None
                    },
                    None => if operands.len() > 0 {
                        Some((operands.len() - 1) as usize)
                    } else {
                        None
                    },
                }
            }),
            final(self).line_views() == old(self).line_views(),
            final(self).col() == old(self).col(),
            final(self).row() == old(self).row(),
            final(self).has_syntax_error() == old(self).has_syntax_error(),
            final(self).dims() == old(self).dims(),
    {
        let n = self.fold_exprs.len();
        if n == 0 {
            return Err(InternalStateError::NoFoldExpr);
        }
        let mut expr = self.fold_exprs.pop().unwrap();
        expr.assign_parsed(operation, operands, cur_operand);
        self.fold_exprs.push(expr);
        assert(self.fold_exprs@ =~= old(self).exprs().update(n - 1, expr));
        Ok(())
    }

    /// Inserts `ch` into the last line at the cursor, and moves the cursor past
    /// it when `advance`.
    pub fn insert_char(&mut self, ch: char, advance: bool) -> (res: Result<(), InternalStateError>)
        requires
            old(self).line_views().len() > 0 ==> old(self).col() <= old(self).line_views().last().len(),
            advance ==> old(self).col() < usize::MAX,
        ensures
            old(self).exprs().len() == 0 ==> res == Err::<(), InternalStateError>(
                InternalStateError::NoFoldExpr,
            ) && final(self).line_views() == old(self).line_views(),
            old(self).exprs().len() > 0 && old(self).line_views().len() == 0 ==> res == Err::<
                (),
                InternalStateError,
            >(InternalStateError::OutOfSync) && final(self).line_views() == old(self).line_views(),
            old(self).exprs().len() > 0 && old(self).line_views().len() > 0 ==> res is Ok && final(self).line_views() == old(self).line_views().update(
                old(self).line_views().len() - 1,
                old(self).line_views().last().insert(old(self).col(), ch),
            ),
            final(self).exprs() == old(self).exprs(),
            final(self).col() == if res is Ok && advance {
                old(self).col() + 1
            } else {
                old(self).col()
            },
            final(self).row() == old(self).row(),
            final(self).has_syntax_error() == old(self).has_syntax_error(),
            final(self).dims() == old(self).dims(),
    {
        if self.fold_exprs.len() == 0 {
            return Err(InternalStateError::NoFoldExpr);
        }
        let m = self.lines.len();
        if m == 0 {
            return Err(InternalStateError::OutOfSync);
        }
        let mut line = self.lines.pop().unwrap();
        assert(line@ == old(self).line_views().last());
        line.insert(self.cur_col, ch);
        self.lines.push(line);
        assert(char_views(self.lines@) =~= old(self).line_views().update(m - 1, line@));
        if advance {
            self.cur_col = self.cur_col + 1;
        }
        Ok(())
    }

    /// Collapses the top expression to `result`, the value it evaluates to.
    pub fn collapse_last(&mut self, result: T) -> (res: Result<(), InternalStateError>)
        ensures
            old(self).exprs().len() == 0 ==> res == Err::<(), InternalStateError>(
                InternalStateError::FoldExprError,
            ) && final(self).exprs() == old(self).exprs(),
            old(self).exprs().len() > 0 ==> ({
                let n = old(self).exprs().len() - 1;
                &&& res is Ok
                &&& final(self).exprs().len() == old(self).exprs().len()
                &&& forall|k: int|
                    0 <= k < n ==> #[trigger] final(self).exprs()[k] == old(self).exprs()[k]
                &&& final(self).exprs()[n].op() == crate::operation::Operation::Addition
                &&& final(self).exprs()[n].operand_seq() == seq![result]
                &&& final(self).exprs()[n].cur() == Some(0usize)
            }),
            final(self).line_views() == old(self).line_views(),
            final(self).col() == old(self).col(),
            final(self).row() == old(self).row(),
            final(self).has_syntax_error() == old(self).has_syntax_error(),
            final(self).dims() == old(self).dims(),
    {
        let n = self.fold_exprs.len();
        if n == 0 {
            return Err(InternalStateError::FoldExprError);
        }
        let mut expr = self.fold_exprs.pop().unwrap();
        expr.collapse(result);
        self.fold_exprs.push(expr);
        assert(self.fold_exprs@ =~= old(self).exprs().update(n - 1, expr));
        Ok(())
    }

    /// Hands the top expression's value `collapsed` to the expression below it,
    /// as its current operand when `changed`, and drops the top expression and
    /// the last line.
    pub fn merge_last(&mut self, collapsed: T, changed: bool)
        requires
            old(self).exprs().len() >= 2,
            ({
                let e = old(self).exprs()[old(self).exprs().len() - 2];
                e.cur() matches Some(i) && i < e.operand_seq().len()
            }),
        ensures
            ({
                let n = old(self).exprs().len() - 2;
                let e = old(self).exprs()[n];
                &&& final(self).exprs().len() == n + 1
                &&& forall|k: int|
                    0 <= k < n ==> #[trigger] final(self).exprs()[k] == old(self).exprs()[k]
                &&& final(self).exprs()[n].op() == e.op()
                &&& final(self).exprs()[n].cur() == e.cur()
                &&& final(self).exprs()[n].operand_seq() == if changed {
                    e.operand_seq().update(e.cur()->0 as int, collapsed)
                } else {
                    e.operand_seq()
                }
            }),
            final(self).line_views() == if old(self).line_views().len() > 0 {
                old(self).line_views().drop_last()
            } else {
                old(self).line_views()
            },
            final(self).col() == old(self).col(),
            final(self).row() == old(self).row(),
            final(self).has_syntax_error() == old(self).has_syntax_error(),
            final(self).dims() == old(self).dims(),
    {
        self.fold_exprs.pop();
        let n = self.fold_exprs.len();
        let mut expr = self.fold_exprs.pop().unwrap();
        if changed {
            expr.replace_cur_operand(collapsed);
        }
        self.fold_exprs.push(expr);
        assert(self.fold_exprs@ =~= old(self).exprs().take(n as int).update(n - 1, expr));
        let ghost before = self.lines@;
        if self.lines.len() > 0 {
            self.lines.pop();
            assert(char_views(self.lines@) =~= char_views(before).drop_last());
        }
    }

    /// Sets the current operand of expression `index` to `value`.
    pub fn set_operand(&mut self, index: usize, value: T)
        requires
            index < old(self).exprs().len(),
            old(self).exprs()[index as int].cur() matches Some(i) && i < old(self).exprs()[index as int].operand_seq().len(),
        ensures
            final(self).exprs().len() == old(self).exprs().len(),
            forall|k: int|
                0 <= k < old(self).exprs().len() && k != index ==> #[trigger] final(self).exprs()[k]
                    == old(self).exprs()[k],
            ({
                let e = old(self).exprs()[index as int];
                &&& final(self).exprs()[index as int].op() == e.op()
                &&& final(self).exprs()[index as int].cur() == e.cur()
                &&& final(self).exprs()[index as int].operand_seq() == e.operand_seq().update(
                    e.cur()->0 as int,
                    value,
                )
            }),
            final(self).line_views() == old(self).line_views(),
            final(self).col() == old(self).col(),
            final(self).row() == old(self).row(),
            final(self).has_syntax_error() == old(self).has_syntax_error(),
            final(self).dims() == old(self).dims(),
    {
        let mut tail: Vec<FoldExpr<T>> = Vec::new();
        let n = self.fold_exprs.len();
        let ghost orig = self.fold_exprs@;
        while self.fold_exprs.len() > index + 1
            invariant
                index < self.fold_exprs.len() <= n,
                n == orig.len(),
                self.fold_exprs@ == orig.take(self.fold_exprs.len() as int),
                tail@ == orig.skip(self.fold_exprs.len() as int).reverse(),
                self.lines@ == old(self).lines@,
                self.cur_col == old(self).cur_col,
                self.cur_row == old(self).cur_row,
                self.syntax_error == old(self).syntax_error,
                self.term_width == old(self).term_width,
                self.term_height == old(self).term_height,
            decreases self.fold_exprs.len(),
        {
            let ghost len = self.fold_exprs.len();
            let e = self.fold_exprs.pop().unwrap();
            tail.push(e);
            assert(self.fold_exprs@ =~= orig.take(len - 1));
            assert(tail@ =~= orig.skip(len - 1).reverse());
        }
        let mut expr = self.fold_exprs.pop().unwrap();
        expr.replace_cur_operand(value);
        self.fold_exprs.push(expr);
        while tail.len() > 0
            invariant
                index + 1 <= self.fold_exprs.len() <= n,
                n == orig.len(),
                self.fold_exprs.len() + tail.len() == n,
                forall|k: int| 0 <= k < index ==> #[trigger] self.fold_exprs@[k] == orig[k],
                forall|k: int| index < k < self.fold_exprs.len() ==> #[trigger] self.fold_exprs@[k] == orig[k],
                self.fold_exprs@[index as int] == expr,
                tail@ == orig.skip(self.fold_exprs.len() as int).reverse(),
                self.lines@ == old(self).lines@,
                self.cur_col == old(self).cur_col,
                self.cur_row == old(self).cur_row,
                self.syntax_error == old(self).syntax_error,
                self.term_width == old(self).term_width,
                self.term_height == old(self).term_height,
            decreases tail.len(),
        {
            let ghost len = self.fold_exprs.len();
            let e = tail.pop().unwrap();
            assert(e == orig[len as int]);
            self.fold_exprs.push(e);
            assert(tail@ =~= orig.skip(len + 1).reverse());
        }
    }

    /// Replaces line `index` by `chars`.
    pub fn set_line(&mut self, index: usize, chars: Vec<char>)
        requires
            index < old(self).line_views().len(),
        ensures
            final(self).line_views() == old(self).line_views().update(index as int, chars@),
            final(self).exprs() == old(self).exprs(),
            final(self).col() == old(self).col(),
            final(self).row() == old(self).row(),
            final(self).has_syntax_error() == old(self).has_syntax_error(),
            final(self).dims() == old(self).dims(),
    {
        let ghost v = chars@;
        self.lines.set(index, chars);
        assert(char_views(self.lines@) =~= old(self).line_views().update(index as int, v));
    }
}

} // verus!
