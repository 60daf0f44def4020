//! The modes of the calculator's input handling, the states that a mode's
//! handler reports back, and the handler's errors.

pub mod variable_handler;

use vstd::prelude::*;
use crate::decimal::{Decimal, DecimalView};

verus! {

/// `std::io::Error`, carried by the handler's errors.
#[verifier::external_type_specification]
#[verifier::external_body]
pub struct ExIoError(std::io::Error);

/// What the keyboard currently drives.
#[derive(Clone, Copy, Debug, PartialEq, Eq, Structural)]
pub enum Mode {
    Normal,
    FunctionDecl,
    FunctionSelect,
    VariableDecl,
    VariableSelect,
}

/// What a mode's handler reports after a key.
pub enum State {
    /// Go on in the given mode, showing the message if there is one.
    Continue(Mode, Option<String>),
    /// Go back to the normal mode, carrying the value that was chosen.
    Carry(Decimal, Option<String>),
    /// Leave the calculator.
    ForceQuit,
}

/// The content of a [`State`].
pub enum StateView {
    Continue(Mode, Option<Seq<char>>),
    Carry(DecimalView, Option<Seq<char>>),
    ForceQuit,
}

pub open spec fn message_view(m: Option<String>) -> Option<Seq<char>> {
    match m {
        Some(s) => Some(s@),
        None => None,
    }
}

impl View for State {
    type V = StateView;

    open spec fn view(&self) -> StateView {
        match self {
            State::Continue(mode, msg) => StateView::Continue(*mode, message_view(*msg)),
            State::Carry(v, msg) => StateView::Carry(v@, message_view(*msg)),
            State::ForceQuit => StateView::ForceQuit,
        }
    }
}

/// Why the input/output handler could not be set up or run.
#[derive(Debug)]
pub enum IoError {
    HandlerConstructionError,
    Io(std::io::Error),
}

impl From<std::io::Error> for IoError {
    fn from(err: std::io::Error) -> (res: IoError) {
        IoError::Io(err)
    }
}

impl vstd::std_specs::convert::FromSpecImpl<std::io::Error> for IoError {
    open spec fn obeys_from_spec() -> bool {
        true
    }

    open spec fn from_spec(err: std::io::Error) -> IoError {
        IoError::Io(err)
    }
}


impl IoError {
    /// The human-readable description of the error.
    pub fn message(&self) -> (res: String)
        ensures
            self matches IoError::HandlerConstructionError ==> res@
                == "Error construtcting `IoHandler`!"@,
            self matches IoError::Io(_) ==> res@.len() >= "`IoHandler`: "@.len() && res@.take(
                "`IoHandler`: "@.len() as int,
            ) == "`IoHandler`: "@,
    {
        match self {
            IoError::HandlerConstructionError => {
                let v = crate::text::str_to_chars("Error construtcting `IoHandler`!");
                crate::text::chars_to_string(v.as_slice())
            },
            IoError::Io(e) => {
                let mut v = crate::text::str_to_chars("`IoHandler`: ");
                let ghost prefix = v@;
                let t = crate::text::io_error_text(e);
                crate::text::push_str(&mut v, t.as_str());
                assert(v@.take(prefix.len() as int) =~= prefix);
                crate::text::chars_to_string(v.as_slice())
            },
        }
    }
}

/// What the dispatcher does once a mode's handler has answered a key.
#[derive(Clone, Copy, Debug, PartialEq, Eq, Structural)]
pub enum Followup {
    /// Hand the key `q` to the normal handler and answer what it answers.
    QuitThroughNormal,
    /// Switch to the mode, drawing its screen first when `true`, then show the
    /// state's message if there is one.
    Enter(Mode, bool),
}

/// The dispatcher's next step after the handler of mode `cur` answered `state`.
pub open spec fn followup_spec(cur: Mode, state: StateView) -> Followup {
    match state {
        StateView::ForceQuit => Followup::QuitThroughNormal,
        StateView::Continue(mode, _) => Followup::Enter(mode, mode != cur),
        StateView::Carry(_, _) => Followup::Enter(Mode::Normal, cur != Mode::Normal),
    }
}

/// The dispatcher's next step after the handler of mode `cur` answered `state`:
/// a forced quit goes through the normal handler; otherwise the calculator
/// switches to the mode that the state names (the normal mode for a carried
/// value), and draws that mode's screen when the mode changes.
pub fn followup(cur: Mode, state: &State) -> (res: Followup)
    ensures
        res == followup_spec(cur, state@),
{
    match state {
        State::ForceQuit => Followup::QuitThroughNormal,
        State::Continue(mode, _) => Followup::Enter(*mode, *mode != cur),
        State::Carry(_, _) => Followup::Enter(Mode::Normal, cur != Mode::Normal),
    }
}

} // verus!
