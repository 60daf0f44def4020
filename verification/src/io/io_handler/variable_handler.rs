//! The variable screens: declaring or deleting a variable by typing a command
//! line, and choosing a variable by typing part of its name. The handler
//! decides; what it wants drawn comes back as a list of outputs.

use vstd::prelude::*;
use crate::decimal::DecimalView;
use crate::io::key::Key;
use crate::io::io_handler::{Mode, State, StateView};
use crate::text::{chars_to_string, is_whitespace, push_str, skip_leading_ws, spec_is_whitespace};
use crate::variables::{
    HandleResult, VarMap, deletion_prefix, handle_spec, insertion_prefix,
};

verus! {

/// What the screen shows: the input line, the cursor's column, the selected
/// match, and the text that names are matched against.
pub struct Screen {
    pub input: Vec<char>,
    pub cur_col: usize,
    pub selection: Option<usize>,
    pub needle: Vec<char>,
}

/// What the handler asks to be drawn, in order.
pub enum Output {
    /// The declaration screen.
    Decl(Screen),
    /// The selection screen.
    Select(Screen),
    /// The cursor moved to this column.
    CursorTo(usize),
}

pub struct ScreenView {
    pub input: Seq<char>,
    pub cur_col: int,
    pub selection: Option<usize>,
    pub needle: Seq<char>,
}

pub enum OutputView {
    Decl(ScreenView),
    Select(ScreenView),
    CursorTo(int),
}

impl View for Screen {
    type V = ScreenView;

    open spec fn view(&self) -> ScreenView {
        ScreenView {
            input: self.input@,
            cur_col: self.cur_col as int,
            selection: self.selection,
            needle: self.needle@,
        }
    }
}

impl View for Output {
    type V = OutputView;

    open spec fn view(&self) -> OutputView {
        match self {
            Output::Decl(s) => OutputView::Decl(s@),
            Output::Select(s) => OutputView::Select(s@),
            Output::CursorTo(c) => OutputView::CursorTo(*c as int),
        }
    }
}

pub open spec fn output_views(v: Seq<Output>) -> Seq<OutputView> {
    v.map_values(|o: Output| o@)
}

/// The handler's own state.
pub struct HandlerView {
    /// The next screen starts afresh.
    pub fresh: bool,
    pub input: Seq<char>,
    pub cur_col: int,
    pub selection: Option<usize>,
}

/// The start of `s` up to its first colon.
pub open spec fn take_until_colon(s: Seq<char>) -> Seq<char>
    decreases s.len(),
{
    if s.len() == 0 || s[0] == ':' {
        seq![]
    } else {
        seq![s[0]] + take_until_colon(s.drop_first())
    }
}

/// The name part of a declaration line: after the four-character prefix, up to
/// the colon.
pub open spec fn decl_needle(input: Seq<char>) -> Seq<char> {
    if input.len() >= 4 {
        take_until_colon(input.skip(4))
    } else {
        seq![]
    }
}

/// `needle` occurs in `hay`.
pub open spec fn contains_sub(hay: Seq<char>, needle: Seq<char>) -> bool {
    exists|i: int|
        0 <= i && i + needle.len() <= hay.len() && #[trigger] hay.subrange(i, i + needle.len())
            == needle
}

/// The indices of the names that contain `needle`, in order.
pub open spec fn matching(names: Seq<Seq<char>>, needle: Seq<char>) -> Seq<int>
    decreases names.len(),
{
    if names.len() == 0 {
        seq![]
    } else if contains_sub(names.last(), needle) {
        matching(names.drop_last(), needle).push(names.len() - 1)
    } else {
        matching(names.drop_last(), needle)
    }
}

/// The matches are indices of the names.
proof fn lemma_matching_in_range(names: Seq<Seq<char>>, needle: Seq<char>)
    ensures
        forall|k: int| #[trigger] matching(names, needle).contains(k) ==> 0 <= k < names.len(),
    decreases names.len(),
{
    if names.len() > 0 {
        let prev = names.drop_last();
        lemma_matching_in_range(prev, needle);
        let m = matching(prev, needle);
        let n = names.len() - 1;
        assert forall|k: int| #[trigger] matching(names, needle).contains(k) implies 0 <= k
            < names.len() by {
            let r = matching(names, needle);
            let t = choose|t: int| 0 <= t < r.len() && r[t] == k;
            if contains_sub(names.last(), needle) {
                assert(r == m.push(n));
                if t < m.len() {
                    assert(m[t] == k);
                    assert(m.contains(k));
                }
            } else {
                assert(r == m);
                assert(m.contains(k));
            }
        }
    } else {
        assert(matching(names, needle) =~= Seq::<int>::empty());
    }
}

/// A name is among the matches exactly when the needle occurs in it at some
/// position, not only at its start.
pub proof fn lemma_matching_is_substring(names: Seq<Seq<char>>, needle: Seq<char>, j: int)
    requires
        0 <= j < names.len(),
    ensures
        matching(names, needle).contains(j) <==> exists|i: int|
            0 <= i && i + needle.len() <= names[j].len() && #[trigger] names[j].subrange(
                i,
                i + needle.len(),
            ) == needle,
    decreases names.len(),
{
    let prev = names.drop_last();
    let n = names.len() - 1;
    lemma_matching_in_range(prev, needle);
    let m = matching(prev, needle);
    if j < n {
        lemma_matching_is_substring(prev, needle, j);
        assert(prev[j] == names[j]);
        if contains_sub(names.last(), needle) {
            assert(matching(names, needle) == m.push(n));
            assert(m.push(n).contains(j) ==> m.contains(j)) by {
                if m.push(n).contains(j) {
                    let t = choose|t: int| 0 <= t < m.push(n).len() && m.push(n)[t] == j;
                    assert(t < m.len());
                    assert(m[t] == j);
                }
            }
            assert(m.contains(j) ==> m.push(n).contains(j)) by {
                if m.contains(j) {
                    let t = choose|t: int| 0 <= t < m.len() && m[t] == j;
                    assert(m.push(n)[t] == j);
                }
            }
        }
    } else {
        assert(!m.contains(n));
        if contains_sub(names.last(), needle) {
            assert(matching(names, needle) == m.push(n));
            assert(m.push(n)[m.len() as int] == n);
        } else {
            assert(names.last() == names[j]);
        }
    }
}

/// Drawing the matches keeps the selection on one of them: it moves up to the
/// last match if it lay beyond. Nothing is drawn, and nothing moves, on a screen
/// under three rows or without matches.
pub open spec fn clamp_selection(sel: Option<usize>, count: nat, height: u16) -> Option<usize> {
    if height < 3 || count == 0 {
        sel
    } else {
        match sel {
            Some(s) => Some(if s < count { s } else { (count - 1) as usize }),
            None => None,
        }
    }
}

pub open spec fn init_decl_view() -> HandlerView {
    HandlerView { fresh: false, input: insertion_prefix(), cur_col: 4, selection: None }
}

pub open spec fn init_select_view() -> HandlerView {
    HandlerView { fresh: false, input: seq![], cur_col: 0, selection: Some(0) }
}

/// Drawing the declaration screen: a fresh screen starts with `VAR `; the
/// selection is kept on the matches of the name typed.
pub open spec fn render_decl_spec(h: HandlerView, names: Seq<Seq<char>>, height: u16) -> (
    HandlerView,
    OutputView,
) {
    let h1 = if h.fresh { init_decl_view() } else { h };
    let needle = decl_needle(h1.input);
    let sel = clamp_selection(h1.selection, matching(names, needle).len(), height);
    let h2 = HandlerView { selection: sel, ..h1 };
    (
        h2,
        OutputView::Decl(
            ScreenView { input: h2.input, cur_col: h2.cur_col, selection: sel, needle: needle },
        ),
    )
}

/// Drawing the selection screen: a fresh screen starts empty with the first
/// match selected; the selection is kept on the matches of the text typed.
pub open spec fn render_select_spec(h: HandlerView, names: Seq<Seq<char>>, height: u16) -> (
    HandlerView,
    OutputView,
) {
    let h1 = if h.fresh { init_select_view() } else { h };
    let needle = h1.input;
    let sel = clamp_selection(h1.selection, matching(names, needle).len(), height);
    let h2 = HandlerView { selection: sel, ..h1 };
    (
        h2,
        OutputView::Select(
            ScreenView { input: h2.input, cur_col: h2.cur_col, selection: sel, needle: needle },
        ),
    )
}

pub open spec fn cursor_spec(h: HandlerView, pos: int) -> (HandlerView, OutputView) {
    (HandlerView { cur_col: pos, ..h }, OutputView::CursorTo(pos))
}

pub open spec fn success_text(s: Seq<char>) -> Seq<char> {
    "\x1b[42m\x1b[30m"@ + s + "\x1b[0m"@
}

pub open spec fn error_text(s: Seq<char>) -> Seq<char> {
    "\x1b[41m"@ + s + "\x1b[0m"@
}

/// The message shown after a command line was carried out.
pub open spec fn handle_message(r: HandleResult) -> Seq<char> {
    match r {
        HandleResult::Insertion => success_text("Variable declaration successful!"@),
        HandleResult::RemovalSuccess => success_text("Variable removal successful!"@),
        HandleResult::RemovalFail => error_text("Variable removal failed!"@),
        HandleResult::Update => success_text("Variable update successful!"@),
        HandleResult::GenericFail => error_text("Malformed input!"@),
    }
}

/// The keys with a meaning of their own on the declaration screen.
pub open spec fn decl_special(key: Key) -> bool {
    key == Key::Char('Q') || key == Key::Char('q') || key == Key::Char('H') || key == Key::Char(
        'C',
    ) || key == Key::Char('V') || key == Key::Char('D')
}

/// The keys on which the declaration screen can act in state `h`: those that
/// cut the line after its prefix need the prefix, those that write at the cursor
/// need the cursor on the line, and the selection confirmed with Enter must be
/// one of the matches.
pub open spec fn decl_accepts(h: HandlerView, names: Seq<Seq<char>>, key: Key) -> bool {
    let m = matching(names, decl_needle(h.input)).len();
    &&& 0 <= h.cur_col
    &&& (key == Key::Enter && h.selection is Some && m > 0) ==> (h.input.len() >= 4
        && h.selection->0 < m)
    &&& key == Key::Char('C') ==> h.input.len() >= 4
    &&& (key is Char && !decl_special(key)) ==> h.cur_col <= h.input.len()
    &&& (key == Key::Backspace && h.cur_col > 4) ==> h.cur_col <= h.input.len()
    &&& key == Key::ArrowDown ==> h.selection != Some(usize::MAX)
    &&& key == Key::ArrowRight ==> h.cur_col < usize::MAX
    &&& (key == Key::Char('V') || key == Key::Char('D')) ==> h.cur_col + h.input.len() + 4
        <= usize::MAX
}

/// The declaration screen's reaction to a key: the handler's next state, the
/// variable table after it, the state reported, and what is to be drawn.
/// `texts[i]` is the text in which the value of the `i`-th name is shown.
pub open spec fn decl_step(
    h: HandlerView,
    map: Map<Seq<char>, DecimalView>,
    names: Seq<Seq<char>>,
    texts: Seq<Seq<char>>,
    height: u16,
    key: Key,
) -> (HandlerView, Map<Seq<char>, DecimalView>, StateView, Seq<OutputView>) {
    let stay = StateView::Continue(Mode::VariableDecl, None);
    if key == Key::Char('Q') {
        (h, map, StateView::ForceQuit, seq![])
    } else if key == Key::Char('q') || key == Key::Escape {
        (
            HandlerView { fresh: true, ..h },
            map,
            StateView::Continue(Mode::Normal, Some("Cancelled variable declaration"@)),
            seq![],
        )
    } else if key == Key::Char('H') {
        (
            h,
            map,
            StateView::Continue(
                Mode::VariableDecl,
                Some("<V> = declare new variable, <D> = delete existing variable"@),
            ),
            seq![],
        )
    } else if key == Key::Enter {
        decl_enter_step(h, map, names, texts, height)
    } else if key == Key::Char('C') || key == Key::Char('V') || key == Key::Char('D') {
        decl_prefix_step(h, map, names, height, key)
    } else {
        decl_edit_step(h, map, names, height, key)
    }
}

/// Enter on the declaration screen: with a selection, the selected name (and on
/// a declaration line its value after a colon) replaces what follows the prefix;
/// without one, the line is carried out as a command and the screen is left.
pub open spec fn decl_enter_step(
    h: HandlerView,
    map: Map<Seq<char>, DecimalView>,
    names: Seq<Seq<char>>,
    texts: Seq<Seq<char>>,
    height: u16,
) -> (HandlerView, Map<Seq<char>, DecimalView>, StateView, Seq<OutputView>) {
    let stay = StateView::Continue(Mode::VariableDecl, None);
    match h.selection {
        Some(s) => {
            let m = matching(names, decl_needle(h.input));
            if m.len() == 0 {
                let (h1, o) = render_decl_spec(h, names, height);
                (h1, map, stay, seq![o])
            } else {
                let idx = m[s as int];
                let base = h.input.take(4) + names[idx];
                let input = if h.input.take(4) == insertion_prefix() {
                    base.push(':') + texts[idx]
                } else {
                    base
                };
                let h1 = HandlerView { input: input, selection: None, ..h };
                let (h2, o1) = render_decl_spec(h1, names, height);
                let (h3, o2) = cursor_spec(h2, h2.input.len() as int);
                (h3, map, stay, seq![o1, o2])
            }
        },
        None => {
            let (map2, r) = handle_spec(map, h.input);
            (
                HandlerView { fresh: true, ..h },
                map2,
                StateView::Continue(Mode::Normal, Some(handle_message(r))),
                seq![],
            )
        },
    }
}

/// `C` cuts the line back to its prefix; `V` and `D` make the line a declaration
/// or a deletion, replacing the other prefix or putting the prefix before the
/// line with its leading white space removed.
pub open spec fn decl_prefix_step(
    h: HandlerView,
    map: Map<Seq<char>, DecimalView>,
    names: Seq<Seq<char>>,
    height: u16,
    key: Key,
) -> (HandlerView, Map<Seq<char>, DecimalView>, StateView, Seq<OutputView>) {
    let stay = StateView::Continue(Mode::VariableDecl, None);
    if key == Key::Char('C') {
        let h1 = HandlerView { input: h.input.take(4), selection: None, ..h };
        let (h2, o1) = render_decl_spec(h1, names, height);
        let (h3, o2) = cursor_spec(h2, h2.input.len() as int);
        (h3, map, stay, seq![o1, o2])
    } else if key == Key::Char('V') || key == Key::Char('D') {
        let prefix = if key == Key::Char('V') { insertion_prefix() } else { deletion_prefix() };
        let other = if key == Key::Char('V') { deletion_prefix() } else { insertion_prefix() };
        if h.input.len() >= 4 && h.input.take(4) == prefix {
            let (h1, o) = render_decl_spec(h, names, height);
            (h1, map, stay, seq![o])
        } else if h.input.len() >= 4 && h.input.take(4) == other {
            let h1 = HandlerView { input: prefix + h.input.skip(4), ..h };
            let (h2, o) = render_decl_spec(h1, names, height);
            (h2, map, stay, seq![o])
        } else {
            let input = prefix + skip_leading_ws(h.input);
            let h1 = HandlerView { input: input, ..h };
            let (h2, o1) = render_decl_spec(h1, names, height);
            let pos = if h2.input.len() < h.input.len() {
                if h2.cur_col < h2.input.len() {
                    h2.cur_col
                } else {
                    h2.input.len() as int
                }
            } else {
                h2.cur_col + h2.input.len() - h.input.len()
            };
            let (h3, o2) = cursor_spec(h2, pos);
            (h3, map, stay, seq![o1, o2])
        }
    } else {
        (h, map, stay, seq![])
    }
}

/// Typing a character at the cursor, erasing the one before it, moving the
/// selection, and moving the cursor.
pub open spec fn decl_edit_step(
    h: HandlerView,
    map: Map<Seq<char>, DecimalView>,
    names: Seq<Seq<char>>,
    height: u16,
    key: Key,
) -> (HandlerView, Map<Seq<char>, DecimalView>, StateView, Seq<OutputView>) {
    let stay = StateView::Continue(Mode::VariableDecl, None);
    if key is Char {
        let input = h.input.insert(h.cur_col, key->Char_0);
        let h1 = HandlerView { input: input, selection: None, ..h };
        let (h2, o1) = render_decl_spec(h1, names, height);
        let pos = if h2.cur_col + 1 < h2.input.len() {
            h2.cur_col + 1
        } else {
            h2.input.len() as int
        };
        let (h3, o2) = cursor_spec(h2, pos);
        (h3, map, stay, seq![o1, o2])
    } else if key == Key::Backspace {
        if h.cur_col <= 4 {
            (h, map, StateView::Continue(Mode::VariableDecl, Some("Nothing to delete!"@)), seq![])
        } else {
            let col = h.cur_col - 1;
            let h1 = HandlerView { input: h.input.remove(col), cur_col: col, selection: None, ..h };
            let (h2, o1) = render_decl_spec(h1, names, height);
            let (h3, o2) = cursor_spec(h2, h2.cur_col);
            (h3, map, stay, seq![o1, o2])
        }
    } else if key == Key::ArrowUp {
        let sel = match h.selection {
            Some(s) => if s > 0 {
                Some((s - 1) as usize)
            } else {
                None
            },
            None => None,
        };
        let (h1, o) = render_decl_spec(HandlerView { selection: sel, ..h }, names, height);
        (h1, map, stay, seq![o])
    } else if key == Key::ArrowDown {
        let sel = match h.selection {
            Some(s) => Some((s + 1) as usize),
            None => Some(0usize),
        };
        let (h1, o) = render_decl_spec(HandlerView { selection: sel, ..h }, names, height);
        (h1, map, stay, seq![o])
    } else if key == Key::ArrowRight {
        let (h1, o1) = render_decl_spec(h, names, height);
        let pos = if h1.cur_col + 1 < h1.input.len() {
            h1.cur_col + 1
        } else {
            h1.input.len() as int
        };
        let (h2, o2) = cursor_spec(h1, pos);
        (h2, map, stay, seq![o1, o2])
    } else {
        let (h1, o1) = render_decl_spec(h, names, height);
        let pos = if h1.cur_col == 0 { 0 } else { h1.cur_col - 1 };
        let (h2, o2) = cursor_spec(h1, pos);
        (h2, map, stay, seq![o1, o2])
    }
}

/// The keys on which the selection screen can act in state `h`: Enter among
/// matches and the selection arrows need a selection, writing at the cursor needs
/// the cursor on the line.
pub open spec fn select_accepts(h: HandlerView, names: Seq<Seq<char>>, key: Key) -> bool {
    let m = matching(names, h.input).len();
    &&& 0 <= h.cur_col
    &&& (key == Key::Enter && m > 0) ==> h.selection is Some
    &&& (key is Char && key != Key::Char('Q') && key != Key::Char('q')) ==> h.cur_col
        <= h.input.len()
    &&& (key == Key::Backspace && h.cur_col != 0 && h.input.len() != 0) ==> h.cur_col
        <= h.input.len()
    &&& key == Key::ArrowUp ==> h.selection is Some
    &&& key == Key::ArrowDown ==> (h.selection is Some && h.selection->0 < usize::MAX)
    &&& key == Key::ArrowRight ==> h.cur_col < usize::MAX
}

/// The selection screen's reaction to a key: the handler's next state, the state
/// reported, and what is to be drawn. Enter hands back the value of the selected
/// match and leaves the screen.
pub open spec fn select_step(
    h: HandlerView,
    map: Map<Seq<char>, DecimalView>,
    names: Seq<Seq<char>>,
    height: u16,
    key: Key,
) -> (HandlerView, StateView, Seq<OutputView>) {
    let stay = StateView::Continue(Mode::VariableSelect, None);
    if key == Key::Char('Q') {
        (h, StateView::ForceQuit, seq![])
    } else if key == Key::Char('q') || key == Key::Escape {
        (
            HandlerView { fresh: true, ..h },
            StateView::Continue(Mode::Normal, Some("Cancelled variable selection"@)),
            seq![],
        )
    } else if key == Key::Enter {
        let m = matching(names, h.input);
        let h1 = HandlerView { fresh: true, ..h };
        if m.len() == 0 || h.selection->0 >= m.len() {
            (h1, StateView::Continue(Mode::Normal, Some("No matching variable found!"@)), seq![])
        } else {
            let name = names[m[h.selection->0 as int]];
            (h1, StateView::Carry(map[name], Some("Inserted "@ + name)), seq![])
        }
    } else if key is Char {
        let input = h.input.insert(h.cur_col, key->Char_0);
        let h1 = HandlerView { input: input, selection: Some(0usize), ..h };
        let (h2, o1) = render_select_spec(h1, names, height);
        let pos = if h2.cur_col + 1 < h2.input.len() {
            h2.cur_col + 1
        } else {
            h2.input.len() as int
        };
        let (h3, o2) = cursor_spec(h2, pos);
        (h3, stay, seq![o1, o2])
    } else if key == Key::Backspace {
        if h.cur_col == 0 || h.input.len() == 0 {
            (h, StateView::Continue(Mode::VariableSelect, Some("Nothing to delete!"@)), seq![])
        } else {
            let col = h.cur_col - 1;
            let h1 = HandlerView {
                input: h.input.remove(col),
                cur_col: col,
                selection: Some(0usize),
                ..h
            };
            let (h2, o1) = render_select_spec(h1, names, height);
            let (h3, o2) = cursor_spec(h2, h2.cur_col);
            (h3, stay, seq![o1, o2])
        }
    } else if key == Key::ArrowUp {
        let s = h.selection->0;
        let sel = if s == 0 { 0usize } else { (s - 1) as usize };
        let (h1, o) = render_select_spec(HandlerView { selection: Some(sel), ..h }, names, height);
        (h1, stay, seq![o])
    } else if key == Key::ArrowDown {
        let sel = (h.selection->0 + 1) as usize;
        let (h1, o) = render_select_spec(HandlerView { selection: Some(sel), ..h }, names, height);
        (h1, stay, seq![o])
    } else if key == Key::ArrowRight {
        let pos = if h.cur_col + 1 < h.input.len() { h.cur_col + 1 } else { h.input.len() as int };
        let (h1, o) = cursor_spec(h, pos);
        (h1, stay, seq![o])
    } else {
        let pos = if h.cur_col == 0 { 0 } else { h.cur_col - 1 };
        let (h1, o) = cursor_spec(h, pos);
        (h1, stay, seq![o])
    }
}

/// The rows a match takes on a terminal `width` columns wide: its name and its
/// value's text side by side.
pub open spec fn match_height(name_len: nat, value_len: nat, width: nat) -> int {
    ((name_len + value_len - 1) as int) / (width as int) + 1
}

/// The rows taken by the first `n` matches.
pub open spec fn rows_before(rows: Seq<(usize, usize)>, n: int) -> int
    decreases n,
{
    if n <= 0 {
        0
    } else {
        rows_before(rows, n - 1) + rows[n - 1].0
    }
}

/// Each match's height, with the rows taken up to and including it.
pub open spec fn rows_consistent(rows: Seq<(usize, usize)>) -> bool {
    forall|i: int|
        0 <= i < rows.len() ==> (#[trigger] rows[i]).0 >= 1 && rows[i].1 == rows_before(
            rows,
            i + 1,
        )
}

proof fn lemma_rows_before_monotone(rows: Seq<(usize, usize)>, a: int, b: int)
    requires
        0 <= a <= b <= rows.len(),
    ensures
        rows_before(rows, a) <= rows_before(rows, b),
    decreases b - a,
{
    if a < b {
        lemma_rows_before_monotone(rows, a, b - 1);
    }
}

/// Each match's height and the rows taken up to and including it, for names and
/// value texts of the given lengths, as the matches are listed.
pub fn match_rows(name_lens: &Vec<usize>, value_lens: &Vec<usize>, width: usize) -> (res: Vec<
    (usize, usize),
>)
    requires
        width > 0,
        name_lens.len() == value_lens.len(),
        forall|i: int|
            0 <= i < name_lens.len() ==> 1 <= #[trigger] name_lens@[i] + value_lens@[i]
                <= usize::MAX,
        forall|k: int|
            0 <= k <= name_lens.len() ==> #[trigger] heights_total(name_lens@, value_lens@, width, k)
                <= usize::MAX,
    ensures
        res.len() == name_lens.len(),
        rows_consistent(res@),
        forall|i: int|
            0 <= i < res.len() ==> (#[trigger] res@[i]).0 == match_height(
                name_lens@[i] as nat,
                value_lens@[i] as nat,
                width as nat,
            ),
{
    let mut res: Vec<(usize, usize)> = Vec::new();
    let mut acc: usize = 0;
    let mut i: usize = 0;
    while i < name_lens.len()
        invariant
            width > 0,
            name_lens.len() == value_lens.len(),
            i <= name_lens.len(),
            res.len() == i,
            acc == rows_before(res@, i as int),
            acc == heights_total(name_lens@, value_lens@, width, i as int),
            rows_consistent(res@),
            forall|j: int|
                0 <= j < name_lens.len() ==> 1 <= #[trigger] name_lens@[j] + value_lens@[j]
                    <= usize::MAX,
            forall|k: int|
                0 <= k <= name_lens.len() ==> #[trigger] heights_total(
                    name_lens@,
                    value_lens@,
                    width,
                    k,
                ) <= usize::MAX,
            forall|j: int|
                0 <= j < res.len() ==> (#[trigger] res@[j]).0 == match_height(
                    name_lens@[j] as nat,
                    value_lens@[j] as nat,
                    width as nat,
                ),
        decreases name_lens.len() - i,
    {
        let total = name_lens[i] + value_lens[i];
        let height = (total - 1) / width + 1;
        assert(heights_total(name_lens@, value_lens@, width, i + 1) <= usize::MAX);
        acc = acc + height;
        let ghost before = res@;
        res.push((height, acc));
        proof {
            assert forall|j: int| 0 <= j < res.len() implies (#[trigger] res@[j]).0 >= 1
                && res@[j].1 == rows_before(res@, j + 1) by {
                lemma_rows_before_prefix(before, res@, j);
                if j < i {
                    lemma_rows_before_prefix(before, res@, j + 1);
                    assert(res@[j] == before[j]);
                }
            }
            lemma_rows_before_prefix(before, res@, i as int);
        }
        i = i + 1;
    }
    res
}

/// The total height of the first `k` matches.
pub open spec fn heights_total(names: Seq<usize>, values: Seq<usize>, width: usize, k: int) -> int
    decreases k,
{
    if k <= 0 {
        0
    } else {
        heights_total(names, values, width, k - 1) + match_height(
            names[k - 1] as nat,
            values[k - 1] as nat,
            width as nat,
        )
    }
}

proof fn lemma_rows_before_prefix(a: Seq<(usize, usize)>, b: Seq<(usize, usize)>, n: int)
    requires
        0 <= n <= a.len() <= b.len(),
        forall|i: int| 0 <= i < a.len() ==> a[i] == b[i],
    ensures
        rows_before(a, n) == rows_before(b, n),
    decreases n,
{
    if n > 0 {
        lemma_rows_before_prefix(a, b, n - 1);
    }
}

/// The first match listed: matches are dropped from the top while the rows up to
/// the selected one do not fit.
pub open spec fn scroll_first(rows: Seq<(usize, usize)>, ceiling: int, rem: int, k: int) -> int
    decreases rows.len() - k,
{
    if ceiling >= rem && k < rows.len() {
        scroll_first(rows, ceiling - rows[k].0, rem, k + 1)
    } else {
        k
    }
}

/// The end of the list shown from match `i` on: matches are listed while each
/// fits strictly in the rows that remain.
pub open spec fn visible_end(rows: Seq<(usize, usize)>, rem: int, i: int) -> int
    decreases rows.len() - i,
{
    if 0 <= i < rows.len() && rem > rows[i].0 {
        visible_end(rows, rem - rows[i].0, i + 1)
    } else {
        i
    }
}

/// The matches that fit on a terminal of `term_height` rows, two of which hold
/// the header and the input line: the first shown and the end of those shown.
pub fn visible_matches(rows: &Vec<(usize, usize)>, selection: Option<usize>, term_height: u16) -> (res: (
    usize,
    usize,
))
    requires
        term_height >= 3,
        rows_consistent(rows@),
        selection matches Some(s) ==> s < rows.len(),
    ensures
        ({
            let rem = term_height - 2;
            let ceiling = match selection {
                Some(s) => rows@[s as int].1 as int,
                None => 0,
            };
            &&& res.0 == scroll_first(rows@, ceiling, rem, 0)
            &&& res.1 == visible_end(rows@, rem, res.0 as int)
        }),
{
    let rem_height: usize = (term_height - 2) as usize;
    let mut first_idx: usize = 0;
    let mut ceiling: usize = match selection {
        Some(s) => rows[s].1,
        None => 0,
    };
    let ghost top = match selection {
        Some(s) => s + 1,
        None => 0,
    };
    let ghost c0 = ceiling as int;
    proof {
        if selection is Some {
            assert(rows@[(top - 1) as int].1 == rows_before(rows@, top));
        }
    }
    while ceiling >= rem_height && first_idx < rows.len()
        invariant
            rem_height >= 1,
            rows_consistent(rows@),
            0 <= top <= rows.len(),
            first_idx <= rows.len(),
            ceiling as int == rows_before(rows@, top) - rows_before(rows@, first_idx as int),
            scroll_first(rows@, ceiling as int, rem_height as int, first_idx as int)
                == scroll_first(rows@, c0, rem_height as int, 0),
        decreases rows.len() - first_idx,
    {
        proof {
            if first_idx >= top {
                lemma_rows_before_monotone(rows@, top, first_idx as int);
            }
            lemma_rows_before_monotone(rows@, first_idx + 1, top);
        }
        ceiling = ceiling - rows[first_idx].0;
        first_idx = first_idx + 1;
    }
    let mut rem = rem_height;
    let mut i: usize = first_idx;
    while i < rows.len() && rem > rows[i].0
        invariant
            first_idx <= i <= rows.len(),
            visible_end(rows@, rem as int, i as int) == visible_end(
                rows@,
                rem_height as int,
                first_idx as int,
            ),
        decreases rows.len() - i,
    {
        rem = rem - rows[i].0;
        i = i + 1;
    }
    (first_idx, i)
}

/// `take_until_colon` is the part of `s` before index `k` when `k` is the first
/// colon or the end.
proof fn lemma_take_until_colon(s: Seq<char>, k: int)
    requires
        0 <= k <= s.len(),
        forall|j: int| 0 <= j < k ==> s[j] != ':',
        k == s.len() || s[k] == ':',
    ensures
        take_until_colon(s) == s.take(k),
    decreases k,
{
    if k == 0 {
        assert(s.take(0) =~= Seq::<char>::empty());
    } else {
        let t = s.drop_first();
        assert forall|j: int| 0 <= j < k - 1 implies t[j] != ':' by {
            assert(t[j] == s[j + 1]);
        }
        lemma_take_until_colon(t, k - 1);
        assert(s.take(k) =~= seq![s[0]] + t.take(k - 1));
    }
}

/// The characters of `s` from index `from` up to the next colon.
fn take_until_colon_from(s: &[char], from: usize) -> (res: Vec<char>)
    ensures
        from <= s.len() ==> res@ == take_until_colon(s@.skip(from as int)),
        from > s.len() ==> res@ == Seq::<char>::empty(),
{
    let mut v: Vec<char> = Vec::new();
    let mut i: usize = from;
    if from >= s.len() {
        assert(from == s.len() ==> s@.skip(from as int).len() == 0);
        return v;
    }
    while i < s.len() && s[i] != ':'
        invariant
            from <= i <= s.len(),
            v@ == s@.subrange(from as int, i as int),
            forall|j: int| from <= j < i ==> s@[j] != ':',
        decreases s.len() - i,
    {
        v.push(s[i]);
        i = i + 1;
        assert(v@ =~= s@.subrange(from as int, i as int));
    }
    proof {
        let t = s@.skip(from as int);
        assert forall|j: int| 0 <= j < i - from implies t[j] != ':' by {
            assert(t[j] == s@[from + j]);
        }
        lemma_take_until_colon(t, i - from);
        assert(t.take(i - from) =~= s@.subrange(from as int, i as int));
    }
    v
}

/// Whether `needle` occurs in `hay`.
fn contains_sub_exec(hay: &[char], needle: &[char]) -> (res: bool)
    ensures
        res == contains_sub(hay@, needle@),
{
    let n = needle.len();
    if n > hay.len() {
        return false;
    }
    let last = hay.len() - n;
    let mut i: usize = 0;
    while i <= last
        invariant
            last + n == hay.len(),
            n == needle.len(),
            forall|k: int| 0 <= k < i ==> #[trigger] hay@.subrange(k, k + n) != needle@,
        decreases last + 1 - i,
    {
        let mut j: usize = 0;
        while j < n && hay[i + j] == needle[j]
            invariant
                j <= n == needle.len(),
                i <= last,
                last + n == hay.len(),
                forall|t: int| 0 <= t < j ==> hay@[i + t] == needle@[t],
            decreases n - j,
        {
            j = j + 1;
        }
        if j == n {
            assert(hay@.subrange(i as int, i + n) =~= needle@);
            return true;
        }
        assert(hay@.subrange(i as int, i + n)[j as int] != needle@[j as int]);
        i = i + 1;
    }
    proof {
        assert forall|k: int|
            0 <= k && k + needle@.len() <= hay@.len() implies #[trigger] hay@.subrange(
            k,
            k + needle@.len(),
        ) != needle@ by {
            assert(k < i);
        }
    }
    false
}

pub open spec fn index_views(v: Seq<usize>) -> Seq<int> {
    v.map_values(|x: usize| x as int)
}

/// The indices of the variables whose names contain `needle`.
fn matching_exec(map: &VarMap, needle: &[char]) -> (res: Vec<usize>)
    requires
        map.wf(),
    ensures
        index_views(res@) == matching(map.name_list(), needle@),
        forall|i: int| 0 <= i < res.len() ==> res@[i] < map.name_list().len(),
{
    let mut res: Vec<usize> = Vec::new();
    let n = map.len();
    let mut i: usize = 0;
    let ghost names = map.name_list();
    assert(names.take(0) =~= Seq::<Seq<char>>::empty());
    assert(index_views(res@) =~= Seq::<int>::empty());
    while i < n
        invariant
            map.wf(),
            names == map.name_list(),
            n == names.len(),
            i <= n,
            index_views(res@) == matching(names.take(i as int), needle@),
            forall|k: int| 0 <= k < res.len() ==> res@[k] < i,
        decreases n - i,
    {
        assert(names.take(i + 1).drop_last() =~= names.take(i as int));
        assert(names.take(i + 1).last() == names[i as int]);
        if contains_sub_exec(map.name_chars(i), needle) {
            assert(index_views(res@.push(i)) =~= index_views(res@).push(i as int));
            res.push(i);
        }
        i = i + 1;
    }
    assert(names.take(n as int) =~= names);
    res
}

/// The variable screens' handler.
pub struct VariableHandler {
    fresh: bool,
    pub var_map: VarMap,
    input_buf: Vec<char>,
    cur_col: usize,
    cur_selection: Option<usize>,
    term_width: u16,
    term_height: u16,
}

impl VariableHandler {
    /// The handler's own state.
    pub closed spec fn hv(&self) -> HandlerView {
        HandlerView {
            fresh: self.fresh,
            input: self.input_buf@,
            cur_col: self.cur_col as int,
            selection: self.cur_selection,
        }
    }

    /// The cursor's column is never negative.
    pub proof fn lemma_cursor_nonneg(&self)
        ensures
            0 <= self.hv().cur_col,
    {
    }

    /// The variable table.
    pub closed spec fn table(&self) -> Map<Seq<char>, DecimalView> {
        self.var_map@
    }

    /// The variables' names, in lexicographic order.
    pub closed spec fn names(&self) -> Seq<Seq<char>> {
        self.var_map.name_list()
    }

    /// The terminal's height in rows.
    pub closed spec fn height(&self) -> u16 {
        self.term_height
    }

    /// The terminal's width in columns.
    pub closed spec fn width(&self) -> u16 {
        self.term_width
    }

    pub closed spec fn wf(&self) -> bool {
        self.var_map.wf()
    }

    /// A handler over the given variables, for a terminal of the given size, whose
    /// next screen starts afresh.
    pub fn new(var_map: VarMap, term_width: u16, term_height: u16) -> (res: VariableHandler)
        requires
            var_map.wf(),
        ensures
            res.wf(),
            res.hv() == (HandlerView {
                fresh: true,
                input: Seq::<char>::empty(),
                cur_col: 0,
                selection: None,
            }),
            res.table() == var_map@,
            res.names() == var_map.name_list(),
            res.width() == term_width,
            res.height() == term_height,
    {
        VariableHandler {
            fresh: true,
            var_map,
            input_buf: Vec::new(),
            cur_col: 0,
            cur_selection: None,
            term_width,
            term_height,
        }
    }

    fn init_decl(&mut self)
        ensures
            final(self).hv() == init_decl_view(),
            final(self).var_map == old(self).var_map,
            final(self).term_height == old(self).term_height,
            final(self).term_width == old(self).term_width,
    {
        self.input_buf = vec!['V', 'A', 'R', ' '];
        assert(self.input_buf@ =~= insertion_prefix());
        self.cur_col = 4;
        self.cur_selection = None;
        self.fresh = false;
    }

    fn init_select(&mut self)
        ensures
            final(self).hv() == init_select_view(),
            final(self).var_map == old(self).var_map,
            final(self).term_height == old(self).term_height,
            final(self).term_width == old(self).term_width,
    {
        self.input_buf.clear();
        assert(self.input_buf@ =~= Seq::<char>::empty());
        self.cur_col = 0;
        self.cur_selection = Some(0);
        self.fresh = false;
    }

    /// Keeps the selection on the matches of `needle`, as drawing them does.
    fn clamp_to_matches(&mut self, needle: &[char])
        requires
            old(self).wf(),
        ensures
            final(self).hv() == (HandlerView {
                selection: clamp_selection(
                    old(self).hv().selection,
                    matching(old(self).names(), needle@).len(),
                    old(self).term_height,
                ),
                ..old(self).hv()
            }),
            final(self).var_map == old(self).var_map,
            final(self).term_height == old(self).term_height,
            final(self).term_width == old(self).term_width,
    {
        if self.term_height < 3 {
            return;
        }
        let matches = matching_exec(&self.var_map, needle);
        let count = matches.len();
        assert(count == matching(self.names(), needle@).len()) by {
            assert(index_views(matches@).len() == matches@.len());
        }
        if count == 0 {
            return;
        }
        self.cur_selection = match self.cur_selection {
            Some(sel) => Some(if sel < count { sel } else { count - 1 }),
            None => None,
        };
    }

    /// The indices of the variables whose names contain `needle`, in order: the
    /// matches that the screens list.
    pub fn matching_names(&self, needle: &[char]) -> (res: Vec<usize>)
        requires
            self.wf(),
        ensures
            index_views(res@) == matching(self.names(), needle@),
            forall|i: int| 0 <= i < res.len() ==> res@[i] < self.names().len(),
    {
        matching_exec(&self.var_map, needle)
    }

    /// Whether the declaration screen can act on `key` in its present state.
    pub fn decl_accepts_key(&self, key: Key) -> (res: bool)
        requires
            self.wf(),
        ensures
            res == decl_accepts(self.hv(), self.names(), key),
    {
        let needle = take_until_colon_from(self.input_buf.as_slice(), 4);
        assert(needle@ == decl_needle(self.input_buf@)) by {
            if self.input_buf.len() == 4 {
                assert(self.input_buf@.skip(4).len() == 0);
                assert(take_until_colon(self.input_buf@.skip(4)) =~= Seq::<char>::empty());
            }
        }
        let matches = matching_exec(&self.var_map, needle.as_slice());
        let m = matches.len();
        assert(m == matching(self.names(), decl_needle(self.input_buf@)).len()) by {
            assert(index_views(matches@).len() == matches@.len());
        }
        let len = self.input_buf.len();
        let col = self.cur_col;
        let special = key == Key::Char('Q') || key == Key::Char('q') || key == Key::Char('H')
            || key == Key::Char('C') || key == Key::Char('V') || key == Key::Char('D');
        let enter_ok = match (key, self.cur_selection) {
            (Key::Enter, Some(sel)) => m == 0 || (len >= 4 && sel < m),
            _ => true,
        };
        let clear_ok = key != Key::Char('C') || len >= 4;
        let char_ok = match key {
            Key::Char(_) => special || col <= len,
            _ => true,
        };
        let back_ok = key != Key::Backspace || col <= 4 || col <= len;
        let down_ok = key != Key::ArrowDown || self.cur_selection != Some(usize::MAX);
        let right_ok = key != Key::ArrowRight || col < usize::MAX;
        let prefix_ok = if key == Key::Char('V') || key == Key::Char('D') {
            match col.checked_add(len) {
                Some(t) => t <= usize::MAX - 4,
                None => false,
            }
        } else {
            true
        };
        enter_ok && clear_ok && char_ok && back_ok && down_ok && right_ok && prefix_ok
    }

    /// Whether the selection screen can act on `key` in its present state.
    pub fn select_accepts_key(&self, key: Key) -> (res: bool)
        requires
            self.wf(),
        ensures
            res == select_accepts(self.hv(), self.names(), key),
    {
        let matches = matching_exec(&self.var_map, self.input_buf.as_slice());
        let m = matches.len();
        assert(m == matching(self.names(), self.input_buf@).len()) by {
            assert(index_views(matches@).len() == matches@.len());
        }
        let len = self.input_buf.len();
        let col = self.cur_col;
        let enter_ok = key != Key::Enter || m == 0 || self.cur_selection.is_some();
        let char_ok = match key {
            Key::Char(c) => c == 'Q' || c == 'q' || col <= len,
            _ => true,
        };
        let back_ok = key != Key::Backspace || col == 0 || len == 0 || col <= len;
        let up_ok = key != Key::ArrowUp || self.cur_selection.is_some();
        let down_ok = key != Key::ArrowDown || match self.cur_selection {
            Some(sel) => sel < usize::MAX,
            None => false,
        };
        let right_ok = key != Key::ArrowRight || col < usize::MAX;
        enter_ok && char_ok && back_ok && up_ok && down_ok && right_ok
    }

    /// Draws the declaration screen: its effect on the handler, and the screen.
    pub fn render_decl(&mut self) -> (res: Output)
        requires
            old(self).wf(),
        ensures
            final(self).wf(),
            (final(self).hv(), res@) == render_decl_spec(
                old(self).hv(),
                old(self).names(),
                old(self).height(),
            ),
            final(self).table() == old(self).table(),
            final(self).names() == old(self).names(),
            final(self).height() == old(self).height(),
            final(self).width() == old(self).width(),
    {
        if self.fresh {
            self.init_decl();
        }
        let needle = take_until_colon_from(self.input_buf.as_slice(), 4);
        self.clamp_to_matches(needle.as_slice());
        Output::Decl(
            Screen {
                input: crate::lexical::copy_chars(self.input_buf.as_slice()),
                cur_col: self.cur_col,
                selection: self.cur_selection,
                needle,
            },
        )
    }

    /// Draws the selection screen: its effect on the handler, and the screen.
    pub fn render_select(&mut self) -> (res: Output)
        requires
            old(self).wf(),
        ensures
            final(self).wf(),
            (final(self).hv(), res@) == render_select_spec(
                old(self).hv(),
                old(self).names(),
                old(self).height(),
            ),
            final(self).table() == old(self).table(),
            final(self).names() == old(self).names(),
            final(self).height() == old(self).height(),
            final(self).width() == old(self).width(),
    {
        if self.fresh {
            self.init_select();
        }
        let needle = crate::lexical::copy_chars(self.input_buf.as_slice());
        self.clamp_to_matches(needle.as_slice());
        Output::Select(
            Screen {
                input: crate::lexical::copy_chars(self.input_buf.as_slice()),
                cur_col: self.cur_col,
                selection: self.cur_selection,
                needle,
            },
        )
    }

    pub fn cursor_to(&mut self, pos: usize) -> (res: Output)
        requires
            old(self).wf(),
        ensures
            final(self).wf(),
            (final(self).hv(), res@) == cursor_spec(old(self).hv(), pos as int),
            final(self).table() == old(self).table(),
            final(self).names() == old(self).names(),
            final(self).height() == old(self).height(),
            final(self).width() == old(self).width(),
    {
        self.cur_col = pos;
        Output::CursorTo(pos)
    }

    /// The handler went from `self` to `after` and reported `res`, as `expected`
    /// describes: its state, the variable table, the reported state and the
    /// outputs.
    pub open spec fn decl_outcome(
        &self,
        after: &Self,
        res: (State, Vec<Output>),
        expected: (HandlerView, Map<Seq<char>, DecimalView>, StateView, Seq<OutputView>),
    ) -> bool {
        let (h, map, st, outs) = expected;
        &&& after.wf()
        &&& after.hv() == h
        &&& after.table() == map
        &&& res.0@ == st
        &&& output_views(res.1@) == outs
        &&& after.width() == self.width()
        &&& after.height() == self.height()
    }

    /// Handles a key on the declaration screen. `value_texts[i]` is the text in
    /// which the value of the `i`-th variable, in lexicographic order of names,
    /// is shown; a confirmed selection copies it into the line.
    pub fn handle_decl(&mut self, key: Key, value_texts: &Vec<String>) -> (res: (State, Vec<Output>))
        requires
            old(self).wf(),
            decl_accepts(old(self).hv(), old(self).names(), key),
            value_texts.len() == old(self).names().len(),
        ensures
            old(self).decl_outcome(
                final(self),
                res,
                decl_step(
                    old(self).hv(),
                    old(self).table(),
                    old(self).names(),
                    crate::function::string_views(value_texts@),
                    old(self).height(),
                    key,
                ),
            ),
    {
        if key == Key::Char('Q') {
            let outs: Vec<Output> = Vec::new();
            assert(output_views(outs@) =~= Seq::<OutputView>::empty());
            return (State::ForceQuit, outs);
        }
        if key == Key::Char('q') || key == Key::Escape {
            self.fresh = true;
            let outs: Vec<Output> = Vec::new();
            assert(output_views(outs@) =~= Seq::<OutputView>::empty());
            return (
                State::Continue(
                    Mode::Normal,
                    Some(crate::text::string_of("Cancelled variable declaration")),
                ),
                outs,
            );
        }
        if key == Key::Char('H') {
            let outs: Vec<Output> = Vec::new();
            assert(output_views(outs@) =~= Seq::<OutputView>::empty());
            return (
                State::Continue(
                    Mode::VariableDecl,
                    Some(
                        crate::text::string_of(
                            "<V> = declare new variable, <D> = delete existing variable",
                        ),
                    ),
                ),
                outs,
            );
        }
        if key == Key::Enter {
            return match self.cur_selection {
                Some(selection) => self.decl_confirm_selection(selection, value_texts),
                None => self.decl_submit(),
            };
        }
        if key == Key::Char('C') || key == Key::Char('V') || key == Key::Char('D') {
            return self.decl_prefix_key(key);
        }
        self.decl_edit_key(key)
    }

    /// Enter with a selection: the selected match's name, and its value after a
    /// colon on a declaration line, replace what follows the prefix.
    fn decl_confirm_selection(&mut self, selection: usize, value_texts: &Vec<String>) -> (res: (
        State,
        Vec<Output>,
    ))
        requires
            old(self).wf(),
            old(self).hv().selection == Some(selection),
            decl_accepts(old(self).hv(), old(self).names(), Key::Enter),
            value_texts.len() == old(self).names().len(),
        ensures
            old(self).decl_outcome(
                final(self),
                res,
                decl_enter_step(
                    old(self).hv(),
                    old(self).table(),
                    old(self).names(),
                    crate::function::string_views(value_texts@),
                    old(self).height(),
                ),
            ),
    {
        let mut outs: Vec<Output> = Vec::new();
        let needle = take_until_colon_from(self.input_buf.as_slice(), 4);
        let matches = matching_exec(&self.var_map, needle.as_slice());
        assert(index_views(matches@).len() == matches@.len());
        if matches.len() == 0 {
            let o = self.render_decl();
            outs.push(o);
            assert(output_views(outs@) =~= seq![o@]);
            return (State::Continue(Mode::VariableDecl, None), outs);
        }
        let sel = if selection < matches.len() {
            selection
        } else {
            matches.len()
        };
        let idx = matches[sel];
        assert(index_views(matches@)[sel as int] == idx as int);
        let ghost prefix = self.input_buf@.take(4);
        let mut buf: Vec<char> = Vec::new();
        buf.push(self.input_buf[0]);
        buf.push(self.input_buf[1]);
        buf.push(self.input_buf[2]);
        buf.push(self.input_buf[3]);
        assert(buf@ =~= prefix);
        assert(buf@.take(4) =~= prefix);
        let is_insertion = crate::variables::starts_with4(buf.as_slice(), 'V', 'A', 'R', ' ');
        assert(is_insertion == (prefix == insertion_prefix()));
        let name = self.var_map.name_chars(idx);
        let mut k: usize = 0;
        while k < name.len()
            invariant
                k <= name.len(),
                buf@ == prefix + name@.take(k as int),
            decreases name.len() - k,
        {
            buf.push(name[k]);
            k = k + 1;
            assert(buf@ =~= prefix + name@.take(k as int));
        }
        assert(name@.take(k as int) =~= name@);
        let ghost texts = crate::function::string_views(value_texts@);
        assert(texts[idx as int] == value_texts@[idx as int]@);
        assert(sel == selection);
        if is_insertion {
            assert(prefix =~= insertion_prefix());
            buf.push(':');
            push_str(&mut buf, value_texts[idx].as_str());
        }
        let ghost m = matching(self.names(), decl_needle(self.input_buf@));
        assert(m[sel as int] == idx);
        assert(buf@ == (if prefix == insertion_prefix() {
            (prefix + self.names()[idx as int]).push(':') + texts[idx as int]
        } else {
            prefix + self.names()[idx as int]
        }));
        self.input_buf = buf;
        self.cur_selection = None;
        let o1 = self.render_decl();
        let len = self.input_buf.len();
        let o2 = self.cursor_to(len);
        outs.push(o1);
        outs.push(o2);
        assert(output_views(outs@) =~= seq![o1@, o2@]);
        (State::Continue(Mode::VariableDecl, None), outs)
    }

    /// Enter without a selection: the line is carried out as a command, and the
    /// screen is left.
    fn decl_submit(&mut self) -> (res: (State, Vec<Output>))
        requires
            old(self).wf(),
            old(self).hv().selection is None,
        ensures
            old(self).decl_outcome(
                final(self),
                res,
                decl_enter_step(
                    old(self).hv(),
                    old(self).table(),
                    old(self).names(),
                    Seq::<Seq<char>>::empty(),
                    old(self).height(),
                ),
            ),
    {
        let outs: Vec<Output> = Vec::new();
        let submission = chars_to_string(self.input_buf.as_slice());
        self.fresh = true;
        let r = self.var_map.handle(submission);
        let (color, text) = match r {
            HandleResult::Insertion => ("\x1b[42m\x1b[30m", "Variable declaration successful!"),
            HandleResult::RemovalSuccess => ("\x1b[42m\x1b[30m", "Variable removal successful!"),
            HandleResult::RemovalFail => ("\x1b[41m", "Variable removal failed!"),
            HandleResult::Update => ("\x1b[42m\x1b[30m", "Variable update successful!"),
            HandleResult::GenericFail => ("\x1b[41m", "Malformed input!"),
        };
        let mut msg = crate::text::str_to_chars(color);
        push_str(&mut msg, text);
        push_str(&mut msg, "\x1b[0m");
        assert(msg@ =~= handle_message(r));
        assert(output_views(outs@) =~= Seq::<OutputView>::empty());
        (State::Continue(Mode::Normal, Some(chars_to_string(msg.as_slice()))), outs)
    }

    /// `C` cuts the line back to its prefix; `V` and `D` switch the line to a
    /// declaration or a deletion.
    fn decl_prefix_key(&mut self, key: Key) -> (res: (
        State,
        Vec<Output>,
    ))
        requires
            old(self).wf(),
            key == Key::Char('C') || key == Key::Char('V') || key == Key::Char('D'),
            decl_accepts(old(self).hv(), old(self).names(), key),
        ensures
            old(self).decl_outcome(
                final(self),
                res,
                decl_prefix_step(old(self).hv(), old(self).table(), old(self).names(), old(self).height(), key),
            ),
    {
        if key == Key::Char('C') {
            let mut outs: Vec<Output> = Vec::new();
            self.input_buf.truncate(4);
            self.cur_selection = None;
            let o1 = self.render_decl();
            let len = self.input_buf.len();
            let o2 = self.cursor_to(len);
            outs.push(o1);
            outs.push(o2);
            assert(output_views(outs@) =~= seq![o1@, o2@]);
            return (State::Continue(Mode::VariableDecl, None), outs);
        }
        let v = key == Key::Char('V');
        let prefix: Vec<char> = if v {
            vec!['V', 'A', 'R', ' ']
        } else {
            vec!['D', 'E', 'L', ' ']
        };
        let other: Vec<char> = if v {
            vec!['D', 'E', 'L', ' ']
        } else {
            vec!['V', 'A', 'R', ' ']
        };
        assert(v ==> prefix@ =~= insertion_prefix() && other@ =~= deletion_prefix());
        assert(!v ==> prefix@ =~= deletion_prefix() && other@ =~= insertion_prefix());
        self.decl_switch_prefix(key, prefix, other)
    }

    fn decl_switch_prefix(
        &mut self,
        key: Key,
        prefix: Vec<char>,
        other: Vec<char>,
    ) -> (res: (State, Vec<Output>))
        requires
            old(self).wf(),
            key == Key::Char('V') || key == Key::Char('D'),
            key == Key::Char('V') ==> prefix@ == insertion_prefix() && other@ == deletion_prefix(),
            key == Key::Char('D') ==> prefix@ == deletion_prefix() && other@ == insertion_prefix(),
            decl_accepts(old(self).hv(), old(self).names(), key),
        ensures
            old(self).decl_outcome(
                final(self),
                res,
                decl_prefix_step(old(self).hv(), old(self).table(), old(self).names(), old(self).height(), key),
            ),
    {
        let mut outs: Vec<Output> = Vec::new();
        let has_prefix = crate::variables::starts_with4(
            self.input_buf.as_slice(),
            prefix[0],
            prefix[1],
            prefix[2],
            prefix[3],
        );
        assert(seq![prefix@[0], prefix@[1], prefix@[2], prefix@[3]] =~= prefix@);
        if has_prefix {
            let o = self.render_decl();
            outs.push(o);
            assert(output_views(outs@) =~= seq![o@]);
            return (State::Continue(Mode::VariableDecl, None), outs);
        }
        let has_other = crate::variables::starts_with4(
            self.input_buf.as_slice(),
            other[0],
            other[1],
            other[2],
            other[3],
        );
        assert(seq![other@[0], other@[1], other@[2], other@[3]] =~= other@);
        if has_other {
            let ghost rest = self.input_buf@.skip(4);
            self.input_buf.set(0, prefix[0]);
            self.input_buf.set(1, prefix[1]);
            self.input_buf.set(2, prefix[2]);
            self.input_buf.set(3, prefix[3]);
            assert(self.input_buf@ =~= prefix@ + rest);
            let o = self.render_decl();
            outs.push(o);
            assert(output_views(outs@) =~= seq![o@]);
            return (State::Continue(Mode::VariableDecl, None), outs);
        }
        let old_buf_len = self.input_buf.len();
        let start = crate::text::leading_ws_end(self.input_buf.as_slice());
        let mut buf = prefix;
        let mut k: usize = start;
        let ghost p = buf@;
        while k < old_buf_len
            invariant
                start <= k <= old_buf_len == self.input_buf.len(),
                buf@ == p + self.input_buf@.subrange(start as int, k as int),
            decreases old_buf_len - k,
        {
            buf.push(self.input_buf[k]);
            k = k + 1;
            assert(buf@ =~= p + self.input_buf@.subrange(start as int, k as int));
        }
        assert(self.input_buf@.subrange(start as int, k as int) =~= self.input_buf@.skip(
            start as int,
        ));
        self.input_buf = buf;
        let o1 = self.render_decl();
        let new_len = self.input_buf.len();
        let pos = if new_len < old_buf_len {
            if self.cur_col < new_len {
                self.cur_col
            } else {
                new_len
            }
        } else {
            self.cur_col + new_len - old_buf_len
        };
        let o2 = self.cursor_to(pos);
        outs.push(o1);
        outs.push(o2);
        assert(output_views(outs@) =~= seq![o1@, o2@]);
        (State::Continue(Mode::VariableDecl, None), outs)
    }

    /// Typing, erasing, moving the selection and moving the cursor.
    fn decl_edit_key(&mut self, key: Key) -> (res: (State, Vec<Output>))
        requires
            old(self).wf(),
            !decl_special(key),
            key != Key::Enter,
            key != Key::Escape,
            decl_accepts(old(self).hv(), old(self).names(), key),
        ensures
            old(self).decl_outcome(
                final(self),
                res,
                decl_edit_step(old(self).hv(), old(self).table(), old(self).names(), old(self).height(), key),
            ),
    {
        let mut outs: Vec<Output> = Vec::new();
        match key {
            Key::Char(ch) => {
                self.input_buf.insert(self.cur_col, ch);
                self.cur_selection = None;
                let o1 = self.render_decl();
                let len = self.input_buf.len();
                let pos = if self.cur_col + 1 < len {
                    self.cur_col + 1
                } else {
                    len
                };
                let o2 = self.cursor_to(pos);
                outs.push(o1);
                outs.push(o2);
                assert(output_views(outs@) =~= seq![o1@, o2@]);
            },
            Key::Backspace => {
                if self.cur_col <= 4 {
                    assert(output_views(outs@) =~= Seq::<OutputView>::empty());
                    return (
                        State::Continue(
                            Mode::VariableDecl,
                            Some(crate::text::string_of("Nothing to delete!")),
                        ),
                        outs,
                    );
                }
                self.cur_col = self.cur_col - 1;
                self.input_buf.remove(self.cur_col);
                self.cur_selection = None;
                let o1 = self.render_decl();
                let col = self.cur_col;
                let o2 = self.cursor_to(col);
                outs.push(o1);
                outs.push(o2);
                assert(output_views(outs@) =~= seq![o1@, o2@]);
            },
            Key::ArrowUp => {
                self.cur_selection = match self.cur_selection {
                    Some(selection) => if selection > 0 {
                        Some(selection - 1)
                    } else {
                        None
                    },
                    None => None,
                };
                let o = self.render_decl();
                outs.push(o);
                assert(output_views(outs@) =~= seq![o@]);
            },
            Key::ArrowDown => {
                self.cur_selection = match self.cur_selection {
                    Some(selection) => Some(selection + 1),
                    None => Some(0),
                };
                let o = self.render_decl();
                outs.push(o);
                assert(output_views(outs@) =~= seq![o@]);
            },
            Key::ArrowRight => {
                let o1 = self.render_decl();
                let len = self.input_buf.len();
                let pos = if self.cur_col + 1 < len {
                    self.cur_col + 1
                } else {
                    len
                };
                let o2 = self.cursor_to(pos);
                outs.push(o1);
                outs.push(o2);
                assert(output_views(outs@) =~= seq![o1@, o2@]);
            },
            _ => {
                let o1 = self.render_decl();
                let pos = if self.cur_col == 0 {
                    0
                } else {
                    self.cur_col - 1
                };
                let o2 = self.cursor_to(pos);
                outs.push(o1);
                outs.push(o2);
                assert(output_views(outs@) =~= seq![o1@, o2@]);
            },
        }
        (State::Continue(Mode::VariableDecl, None), outs)
    }

    /// Handles a key on the selection screen.
    pub fn handle_select(&mut self, key: Key) -> (res: (State, Vec<Output>))
        requires
            old(self).wf(),
            select_accepts(old(self).hv(), old(self).names(), key),
        ensures
            ({
                let (h, st, outs) = select_step(
                    old(self).hv(),
                    old(self).table(),
                    old(self).names(),
                    old(self).height(),
                    key,
                );
                old(self).decl_outcome(final(self), res, (h, old(self).table(), st, outs))
            }),
    {
        let mut outs: Vec<Output> = Vec::new();
        assert(output_views(outs@) =~= Seq::<OutputView>::empty());
        if key == Key::Char('Q') {
            return (State::ForceQuit, outs);
        }
        if key == Key::Char('q') || key == Key::Escape {
            self.fresh = true;
            return (
                State::Continue(
                    Mode::Normal,
                    Some(crate::text::string_of("Cancelled variable selection")),
                ),
                outs,
            );
        }
        if key == Key::Enter {
            let matches = matching_exec(&self.var_map, self.input_buf.as_slice());
            assert(index_views(matches@).len() == matches@.len());
            self.fresh = true;
            if matches.len() == 0 || self.cur_selection.unwrap() >= matches.len() {
                return (
                    State::Continue(
                        Mode::Normal,
                        Some(crate::text::string_of("No matching variable found!")),
                    ),
                    outs,
                );
            }
            let sel = self.cur_selection.unwrap();
            let idx = matches[sel];
            assert(index_views(matches@)[sel as int] == idx as int);
            let value = self.var_map.value_at(idx).duplicate();
            let mut msg = crate::text::str_to_chars("Inserted ");
            let name = self.var_map.name_chars(idx);
            let mut k: usize = 0;
            let ghost p = msg@;
            while k < name.len()
                invariant
                    k <= name.len(),
                    msg@ == p + name@.take(k as int),
                decreases name.len() - k,
            {
                msg.push(name[k]);
                k = k + 1;
                assert(msg@ =~= p + name@.take(k as int));
            }
            assert(name@.take(k as int) =~= name@);
            return (State::Carry(value, Some(chars_to_string(msg.as_slice()))), outs);
        }
        match key {
            Key::Char(ch) => {
                self.input_buf.insert(self.cur_col, ch);
                self.cur_selection = Some(0);
                let o1 = self.render_select();
                let len = self.input_buf.len();
                let pos = if self.cur_col + 1 < len {
                    self.cur_col + 1
                } else {
                    len
                };
                let o2 = self.cursor_to(pos);
                outs.push(o1);
                outs.push(o2);
                assert(output_views(outs@) =~= seq![o1@, o2@]);
            },
            Key::Backspace => {
                if self.cur_col == 0 || self.input_buf.len() == 0 {
                    return (
                        State::Continue(
                            Mode::VariableSelect,
                            Some(crate::text::string_of("Nothing to delete!")),
                        ),
                        outs,
                    );
                }
                self.cur_col = self.cur_col - 1;
                self.input_buf.remove(self.cur_col);
                self.cur_selection = Some(0);
                let o1 = self.render_select();
                let col = self.cur_col;
                let o2 = self.cursor_to(col);
                outs.push(o1);
                outs.push(o2);
                assert(output_views(outs@) =~= seq![o1@, o2@]);
            },
            Key::ArrowUp => {
                let s = self.cur_selection.unwrap();
                self.cur_selection = if s == 0 {
                    Some(0)
                } else {
                    Some(s - 1)
                };
                let o = self.render_select();
                outs.push(o);
                assert(output_views(outs@) =~= seq![o@]);
            },
            Key::ArrowDown => {
                self.cur_selection = Some(self.cur_selection.unwrap() + 1);
                let o = self.render_select();
                outs.push(o);
                assert(output_views(outs@) =~= seq![o@]);
            },
            Key::ArrowRight => {
                let len = self.input_buf.len();
                let pos = if self.cur_col + 1 < len {
                    self.cur_col + 1
                } else {
                    len
                };
                let o = self.cursor_to(pos);
                outs.push(o);
                assert(output_views(outs@) =~= seq![o@]);
            },
            _ => {
                let pos = if self.cur_col == 0 {
                    0
                } else {
                    self.cur_col - 1
                };
                let o = self.cursor_to(pos);
                outs.push(o);
                assert(output_views(outs@) =~= seq![o@]);
            },
        }
        (State::Continue(Mode::VariableSelect, None), outs)
    }
}

} // verus!
