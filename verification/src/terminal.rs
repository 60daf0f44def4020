//! The terminal's preparation: what can go wrong, and the check on its size.

use vstd::prelude::*;

verus! {

/// The escape byte.
pub const ESC: u8 = 0x1b;

/// Why the terminal could not be prepared.
#[derive(Debug)]
pub enum TerminalPreparationError {
    BadTerminalSize,
    Io(std::io::Error),
}

impl From<std::io::Error> for TerminalPreparationError {
    fn from(err: std::io::Error) -> (res: TerminalPreparationError) {
        TerminalPreparationError::Io(err)
    }
}

impl vstd::std_specs::convert::FromSpecImpl<std::io::Error> for TerminalPreparationError {
    open spec fn obeys_from_spec() -> bool {
        true
    }

    open spec fn from_spec(err: std::io::Error) -> TerminalPreparationError {
        TerminalPreparationError::Io(err)
    }
}


impl TerminalPreparationError {
    /// The human-readable description of the error.
    pub fn message(&self) -> (res: String)
        ensures
            self matches TerminalPreparationError::BadTerminalSize ==> res@
                == "Couldn't fetch terminal size!"@,
            self matches TerminalPreparationError::Io(_) ==> res@.len() >= "Terminal: "@.len()
                && res@.take("Terminal: "@.len() as int) == "Terminal: "@,
    {
        match self {
            TerminalPreparationError::BadTerminalSize => crate::text::string_of(
                "Couldn't fetch terminal size!",
            ),
            TerminalPreparationError::Io(e) => {
                let mut v = crate::text::str_to_chars("Terminal: ");
                let ghost prefix = v@;
                let t = crate::text::io_error_text(e);
                crate::text::push_str(&mut v, t.as_str());
                assert(v@.take(prefix.len() as int) =~= prefix);
                crate::text::chars_to_string(v.as_slice())
            },
        }
    }
}

/// Accepts the size the terminal reported, in columns and rows, unless one of
/// them is zero.
pub fn validate_size(cols: u16, rows: u16) -> (res: Result<(u16, u16), TerminalPreparationError>)
    ensures
        cols != 0 && rows != 0 ==> (res matches Ok(size) && size == (cols, rows)),
        cols == 0 || rows == 0 ==> (res matches Err(TerminalPreparationError::BadTerminalSize)),
{
    if cols == 0 || rows == 0 {
        return Err(TerminalPreparationError::BadTerminalSize);
    }
    Ok((cols, rows))
}

} // verus!
