//! The line-based form of the input/output handler: one line per fold
//! expression. What it computes from its lines, and its errors.

use vstd::prelude::*;
use crate::io::key::Key;

verus! {

/// Why the line-based handler could not be set up.
#[derive(Debug)]
pub enum IoError {
    HandlerConstructionError,
    Io(std::io::Error),
    MissingRowInformation,
}

impl From<std::io::Error> for IoError {
    fn from(err: std::io::Error) -> (res: IoError) {
        IoError::Io(err)
    }
}

impl vstd::std_specs::convert::FromSpecImpl<std::io::Error> for IoError {
    open spec fn obeys_from_spec() -> bool {
        true
    }

    open spec fn from_spec(err: std::io::Error) -> IoError {
        IoError::Io(err)
    }
}


impl IoError {
    /// The human-readable description of the error.
    pub fn message(&self) -> (res: String)
        ensures
            self matches IoError::HandlerConstructionError ==> res@
                == "Error construtcting `IoHandler`!"@,
            self matches IoError::MissingRowInformation ==> res@
                == "Couldn't fetch row information!"@,
            self matches IoError::Io(_) ==> res@.len() >= "`IoHandler`: "@.len() && res@.take(
                "`IoHandler`: "@.len() as int,
            ) == "`IoHandler`: "@,
    {
        match self {
            IoError::HandlerConstructionError => crate::text::string_of(
                "Error construtcting `IoHandler`!",
            ),
            IoError::MissingRowInformation => crate::text::string_of(
                "Couldn't fetch row information!",
            ),
            IoError::Io(e) => {
                let mut v = crate::text::str_to_chars("`IoHandler`: ");
                let ghost prefix = v@;
                let t = crate::text::io_error_text(e);
                crate::text::push_str(&mut v, t.as_str());
                assert(v@.take(prefix.len() as int) =~= prefix);
                crate::text::chars_to_string(v.as_slice())
            },
        }
    }
}

/// The number of terminal rows a line of `len` characters takes on a terminal
/// `width` columns wide, with the length counted modulo 2^16 as the handler
/// counts it.
pub open spec fn line_rows(len: nat, width: u16) -> int {
    (((len % 0x10000) - 1) / (width as int)) + 1
}

/// The rows that the lines take, in total.
pub open spec fn total_rows(lens: Seq<usize>, width: u16) -> int
    decreases lens.len(),
{
    if lens.len() == 0 {
        0
    } else {
        total_rows(lens.drop_last(), width) + line_rows(lens.last() as nat, width)
    }
}

/// The first line to print when the lines are redrawn `up` rows above the
/// cursor: lines are taken from the bottom until their rows cover `up`.
pub open spec fn first_line_from(lens: Seq<usize>, width: u16, idx: int, up: int) -> int
    decreases idx,
{
    if idx > 0 && up > 0 {
        first_line_from(lens, width, idx - 1, up - line_rows(lens[idx - 1] as nat, width))
    } else {
        idx
    }
}

/// Redrawing is possible with these lines: each takes a positive number of
/// characters modulo 2^16, the row counts do not run past what a `u16` holds,
/// and taking lines from the bottom never covers more rows than remain.
pub open spec fn redraw_fits(lens: Seq<usize>, width: u16, up: int) -> bool {
    &&& width > 0
    &&& forall|i: int| 0 <= i < lens.len() ==> (#[trigger] lens[i]) % 0x10000 != 0
    &&& forall|k: int| 0 <= k <= lens.len() ==> #[trigger] total_rows(lens.take(k), width)
        <= u16::MAX
    &&& redraw_steps_fit(lens, width, lens.len() as int, up)
}

/// Taking lines from the bottom, each line's rows fit in what is left to cover.
pub open spec fn redraw_steps_fit(lens: Seq<usize>, width: u16, idx: int, up: int) -> bool
    decreases idx,
{
    if idx > 0 && up > 0 {
        line_rows(lens[idx - 1] as nat, width) <= up && redraw_steps_fit(
            lens,
            width,
            idx - 1,
            up - line_rows(lens[idx - 1] as nat, width),
        )
    } else {
        true
    }
}

proof fn lemma_line_rows_bounds(len: nat, width: u16)
    requires
        width > 0,
        len % 0x10000 != 0,
    ensures
        1 <= line_rows(len, width) <= 0x10000,
{
    let m = len % 0x10000;
    assert(0 <= (m - 1) / (width as int) <= m - 1) by (nonlinear_arith)
        requires
            1 <= m,
            width >= 1,
    ;
}

proof fn lemma_u16_cast(x: usize)
    ensures
        (x as u16) as int == x % 0x10000,
{
    assert((x as u16) == x % 0x10000) by (bit_vector);
}

/// The rows of the lines, summed as a `u16`.
fn rows_of(lens: &Vec<usize>, width: u16) -> (res: u16)
    requires
        width > 0,
        forall|i: int| 0 <= i < lens.len() ==> (#[trigger] lens@[i]) % 0x10000 != 0,
        forall|k: int| 0 <= k <= lens.len() ==> #[trigger] total_rows(lens@.take(k), width)
            <= u16::MAX,
    ensures
        res == total_rows(lens@, width),
{
    let mut acc: u16 = 0;
    let mut i: usize = 0;
    assert(lens@.take(0) =~= Seq::<usize>::empty());
    while i < lens.len()
        invariant
            width > 0,
            i <= lens.len(),
            acc == total_rows(lens@.take(i as int), width),
            forall|j: int| 0 <= j < lens.len() ==> (#[trigger] lens@[j]) % 0x10000 != 0,
            forall|k: int| 0 <= k <= lens.len() ==> #[trigger] total_rows(lens@.take(k), width)
                <= u16::MAX,
        decreases lens.len() - i,
    {
        assert(lens@.take(i + 1).drop_last() =~= lens@.take(i as int));
        assert(lens@.take(i + 1).last() == lens@[i as int]);
        proof {
            lemma_line_rows_bounds(lens@[i as int] as nat, width);
        }
        let x = lens[i];
        let l: u16 = x as u16;
        proof {
            lemma_u16_cast(x);
        }
        let rows = (l - 1) / width + 1;
        assert(total_rows(lens@.take(i + 1), width) <= u16::MAX);
        acc = acc + rows;
        i = i + 1;
    }
    assert(lens@.take(i as int) =~= lens@);
    acc
}

/// Where a redraw starts: how many rows to move up, and the first line to print.
/// The rows to move up are the rows of all lines, but no more than the cursor's
/// row, less one; with `guarded`, no less than zero, otherwise the cursor must
/// not be on row zero with lines to draw.
pub fn redraw_start(cur_row: u16, lens: &Vec<usize>, width: u16, guarded: bool) -> (res: (
    u16,
    usize,
))
    requires
        width > 0,
        forall|i: int| 0 <= i < lens.len() ==> (#[trigger] lens@[i]) % 0x10000 != 0,
        forall|k: int| 0 <= k <= lens.len() ==> #[trigger] total_rows(lens@.take(k), width)
            <= u16::MAX,
        !guarded ==> cur_row > 0 && total_rows(lens@, width) > 0,
        ({
            let m = if (cur_row as int) < total_rows(lens@, width) {
                cur_row as int
            } else {
                total_rows(lens@, width)
            };
            let up = if m == 0 { 0 } else { m - 1 };
            up != cur_row ==> redraw_steps_fit(lens@, width, lens.len() as int, up)
        }),
    ensures
        ({
            let m = if (cur_row as int) < total_rows(lens@, width) {
                cur_row as int
            } else {
                total_rows(lens@, width)
            };
            let up = if m == 0 { 0 } else { m - 1 };
            &&& res.0 == up
            &&& res.1 == if up == cur_row {
                0
            } else {
                first_line_from(lens@, width, lens.len() as int, up)
            }
        }),
{
    let total = rows_of(lens, width);
    let m = if cur_row < total {
        cur_row
    } else {
        total
    };
    let up = if m == 0 {
        0
    } else {
        m - 1
    };
    if up == cur_row {
        return (up, 0);
    }
    let mut idx: usize = lens.len();
    let mut cp: u16 = up;
    while idx > 0 && cp > 0
        invariant
            width > 0,
            idx <= lens.len(),
            forall|i: int| 0 <= i < lens.len() ==> (#[trigger] lens@[i]) % 0x10000 != 0,
            first_line_from(lens@, width, idx as int, cp as int) == first_line_from(
                lens@,
                width,
                lens.len() as int,
                up as int,
            ),
            redraw_steps_fit(lens@, width, idx as int, cp as int),
        decreases idx,
    {
        idx = idx - 1;
        proof {
            lemma_line_rows_bounds(lens@[idx as int] as nat, width);
        }
        let x = lens[idx];
        let l: u16 = x as u16;
        proof {
            lemma_u16_cast(x);
        }
        cp = cp - ((l - 1) / width + 1);
    }
    (up, idx)
}

/// How many rows a redraw moves up: the rows of all lines, but no more than the
/// cursor's row, less one and no less than zero.
pub open spec fn redraw_up(cur_row: u16, lens: Seq<usize>, width: u16) -> int {
    let m = if (cur_row as int) < total_rows(lens, width) {
        cur_row as int
    } else {
        total_rows(lens, width)
    };
    if m == 0 {
        0
    } else {
        m - 1
    }
}

/// The inputs on which a redraw's arithmetic stays in range, as
/// [`redraw_start`] requires.
pub open spec fn redraw_ok(cur_row: u16, lens: Seq<usize>, width: u16, guarded: bool) -> bool {
    &&& width > 0
    &&& forall|i: int| 0 <= i < lens.len() ==> (#[trigger] lens[i]) % 0x10000 != 0
    &&& forall|k: int| 0 <= k <= lens.len() ==> #[trigger] total_rows(lens.take(k), width)
        <= u16::MAX
    &&& !guarded ==> cur_row > 0 && total_rows(lens, width) > 0
    &&& redraw_up(cur_row, lens, width) != cur_row ==> redraw_steps_fit(
        lens,
        width,
        lens.len() as int,
        redraw_up(cur_row, lens, width),
    )
}

proof fn lemma_total_rows_step(lens: Seq<usize>, width: u16, i: int)
    requires
        0 <= i < lens.len(),
    ensures
        total_rows(lens.take(i + 1), width) == total_rows(lens.take(i), width) + line_rows(
            lens[i] as nat,
            width,
        ),
{
    assert(lens.take(i + 1).drop_last() =~= lens.take(i));
    assert(lens.take(i + 1).last() == lens[i]);
}

/// Where a redraw starts, or `None` where the redraw's arithmetic would leave
/// its range (the inputs that [`redraw_start`] does not take).
pub fn try_redraw_start(cur_row: u16, lens: &Vec<usize>, width: u16, guarded: bool) -> (res: Option<
    (u16, usize),
>)
    ensures
        res is Some <==> redraw_ok(cur_row, lens@, width, guarded),
        res matches Some(r) ==> ({
            let up = redraw_up(cur_row, lens@, width);
            &&& r.0 == up
            &&& r.1 == if up == cur_row {
                0
            } else {
                first_line_from(lens@, width, lens.len() as int, up)
            }
        }),
{
    if width == 0 {
        return None;
    }
    let mut acc: u32 = 0;
    let mut i: usize = 0;
    assert(lens@.take(0) =~= Seq::<usize>::empty());
    while i < lens.len()
        invariant
            width > 0,
            i <= lens.len(),
            acc == total_rows(lens@.take(i as int), width),
            acc <= u16::MAX,
            forall|j: int| 0 <= j < i ==> (#[trigger] lens@[j]) % 0x10000 != 0,
            forall|k: int| 0 <= k <= i ==> #[trigger] total_rows(lens@.take(k), width)
                <= u16::MAX,
        decreases lens.len() - i,
    {
        let l: usize = lens[i] % 0x10000;
        if l == 0 {
            return None;
        }
        proof {
            lemma_line_rows_bounds(lens@[i as int] as nat, width);
            lemma_total_rows_step(lens@, width, i as int);
        }
        let small: u32 = l as u32;
        let rows: u32 = (small - 1) / (width as u32) + 1;
        assert(rows == line_rows(lens@[i as int] as nat, width));
        acc = acc + rows;
        if acc > 0xffff {
            return None;
        }
        i = i + 1;
    }
    assert(lens@.take(i as int) =~= lens@);
    if !guarded && (cur_row == 0 || acc == 0) {
        return None;
    }
    let total: u16 = acc as u16;
    let m: u16 = if cur_row < total {
        cur_row
    } else {
        total
    };
    let up: u16 = if m == 0 {
        0
    } else {
        m - 1
    };
    assert(up == redraw_up(cur_row, lens@, width));
    if up != cur_row {
        let mut idx: usize = lens.len();
        let mut cp: u16 = up;
        while idx > 0 && cp > 0
            invariant
                width > 0,
                idx <= lens.len(),
                up == redraw_up(cur_row, lens@, width),
                up != cur_row,
                forall|j: int| 0 <= j < lens.len() ==> (#[trigger] lens@[j]) % 0x10000 != 0,
                redraw_steps_fit(lens@, width, lens.len() as int, up as int)
                    <== redraw_steps_fit(lens@, width, idx as int, cp as int),
                !redraw_steps_fit(lens@, width, idx as int, cp as int) ==> !redraw_steps_fit(
                    lens@,
                    width,
                    lens.len() as int,
                    up as int,
                ),
            decreases idx,
        {
            idx = idx - 1;
            proof {
                lemma_line_rows_bounds(lens@[idx as int] as nat, width);
            }
            let small: u32 = (lens[idx] % 0x10000) as u32;
            let rows: u32 = (small - 1) / (width as u32) + 1;
            assert(rows == line_rows(lens@[idx as int] as nat, width));
            if rows > cp as u32 {
                assert(!redraw_steps_fit(lens@, width, idx + 1, cp as int));
                return None;
            }
            cp = cp - (rows as u16);
        }
    }
    Some(redraw_start(cur_row, lens, width, guarded))
}


/// What the simplified handler does with a key.
#[derive(Clone, Copy, Debug, PartialEq, Eq, Structural)]
pub enum SimpleAction {
    /// End with the value of the bottom expression.
    Quit,
    /// Insert the character at the cursor, read the line again and move the
    /// cursor past the character.
    Insert(char),
    /// Move the cursor one column right.
    MoveRight,
    /// Move the cursor one column left, not onto the operator.
    MoveLeft,
    /// Redraw the lines.
    Render,
}

/// The simplified handler's action for `key`.
pub open spec fn simple_action_spec(key: Key) -> SimpleAction {
    match key {
        Key::Char(c) => if c == 'q' {
            SimpleAction::Quit
        } else {
            SimpleAction::Insert(c)
        },
        Key::ArrowRight => SimpleAction::MoveRight,
        Key::ArrowLeft => SimpleAction::MoveLeft,
        _ => SimpleAction::Render,
    }
}

/// The simplified handler's action for `key`.
pub fn simple_action(key: Key) -> (res: SimpleAction)
    ensures
        res == simple_action_spec(key),
{
    match key {
        Key::Char(c) => if c == 'q' {
            SimpleAction::Quit
        } else {
            SimpleAction::Insert(c)
        },
        Key::ArrowRight => SimpleAction::MoveRight,
        Key::ArrowLeft => SimpleAction::MoveLeft,
        _ => SimpleAction::Render,
    }
}

} // verus!
