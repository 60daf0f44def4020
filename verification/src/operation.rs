//! The operators of a fold expression.

use vstd::prelude::*;
use crate::text::{chars_to_string, str_to_chars};

verus! {

/// An operator that folds a list of operands into one value.
#[derive(Clone, Copy, Debug, PartialEq, Eq, Structural)]
pub enum Operation {
    Addition,
    Division,
    Factorial,
    Multiplication,
    Power,
    Root,
    Subtraction,
}

/// The symbol with which an operation is displayed.
pub open spec fn symbol_of(op: Operation) -> char {
    match op {
        Operation::Addition => '+',
        Operation::Division => '÷',
        Operation::Factorial => '!',
        Operation::Multiplication => '×',
        Operation::Power => '^',
        Operation::Root => '√',
        Operation::Subtraction => '-',
    }
}

/// The operation that a typed character stands for, if any.
pub open spec fn operation_of_char(ch: char) -> Option<Operation> {
    if ch == '+' {
        Some(Operation::Addition)
    } else if ch == '/' || ch == '÷' {
        Some(Operation::Division)
    } else if ch == '!' {
        Some(Operation::Factorial)
    } else if ch == '*' || ch == '×' || ch == '⋅' || ch == '∗' {
        Some(Operation::Multiplication)
    } else if ch == '^' {
        Some(Operation::Power)
    } else if ch == '\\' || ch == '√' {
        Some(Operation::Root)
    } else if ch == '-' {
        Some(Operation::Subtraction)
    } else {
        None
    }
}

impl Operation {
    /// Whether the operation takes exactly one operand.
    pub fn is_unary(&self) -> (res: bool)
        ensures
            res <==> *self == Operation::Factorial,
    {
        match self {
            Operation::Factorial => true,
            _ => false,
        }
    }

    /// The symbol with which the operation is displayed.
    pub fn as_char(&self) -> (res: char)
        ensures
            res == symbol_of(*self),
    {
        match self {
            Operation::Addition => '+',
            Operation::Division => '÷',
            Operation::Factorial => '!',
            Operation::Multiplication => '×',
            Operation::Power => '^',
            Operation::Root => '√',
            Operation::Subtraction => '-',
        }
    }

    /// Reads an operation from a typed character.
    pub fn try_from_char(ch: char) -> (res: Result<Operation, ParseOperationError>)
        ensures
            operation_of_char(ch) matches Some(op) ==> res == Ok::<Operation, ParseOperationError>(op),
            operation_of_char(ch) is None ==> res == Err::<Operation, ParseOperationError>(
                ParseOperationError::InvalidCharacter(ch),
            ),
    {
        match ch {
            '+' => Ok(Operation::Addition),
            '/' | '÷' => Ok(Operation::Division),
            '!' => Ok(Operation::Factorial),
            '*' | '×' | '⋅' | '∗' => Ok(Operation::Multiplication),
            '^' => Ok(Operation::Power),
            '\\' | '√' => Ok(Operation::Root),
            '-' => Ok(Operation::Subtraction),
            _ => Err(ParseOperationError::InvalidCharacter(ch)),
        }
    }

    /// The display form of the operation: its symbol.
    pub fn to_text(&self) -> (res: String)
        ensures
            res@ == seq![symbol_of(*self)],
    {
        let mut v: Vec<char> = Vec::new();
        v.push(self.as_char());
        chars_to_string(v.as_slice())
    }
}

impl TryFrom<char> for Operation {
    type Error = ParseOperationError;

    fn try_from(ch: char) -> (res: Result<Operation, ParseOperationError>) {
        Operation::try_from_char(ch)
    }
}

impl vstd::std_specs::convert::TryFromSpecImpl<char> for Operation {
    open spec fn obeys_try_from_spec() -> bool {
        true
    }

    open spec fn try_from_spec(ch: char) -> Result<Operation, ParseOperationError> {
        match operation_of_char(ch) {
            Some(op) => Ok(op),
            None => Err(ParseOperationError::InvalidCharacter(ch)),
        }
    }
}

/// Reading an operation back from its symbol gives the same operation.
pub proof fn lemma_symbol_round_trip(op: Operation)
    ensures
        operation_of_char(symbol_of(op)) == Some(op),
{
}

/// Why an operation could not be carried out.
#[derive(Clone, Copy, Debug, PartialEq, Eq, Structural)]
pub enum OperationExecutionError {
    DivisionByZero,
    InvalidInput,
    WrongOperandCount,
}

impl OperationExecutionError {
    /// The human-readable description of the error.
    pub fn message(&self) -> (res: String)
        ensures
            *self == OperationExecutionError::DivisionByZero ==> res@ == "Division by zero!"@,
            *self == OperationExecutionError::InvalidInput ==> res@
                == "Operation not defined for given input!"@,
            *self == OperationExecutionError::WrongOperandCount ==> res@
                == "Wrong number of operands provided for given operator!"@,
    {
        let s = match self {
            OperationExecutionError::DivisionByZero => "Division by zero!",
            OperationExecutionError::InvalidInput => "Operation not defined for given input!",
            OperationExecutionError::WrongOperandCount =>
                "Wrong number of operands provided for given operator!",
        };
        let v = str_to_chars(s);
        chars_to_string(v.as_slice())
    }
}

/// Why an operation could not be read.
#[derive(Clone, Copy, Debug, PartialEq, Eq, Structural)]
pub enum ParseOperationError {
    InvalidCharacter(char),
    EmptyInput,
}

/// The description of an error in reading an operation.
pub open spec fn parse_operation_message(e: ParseOperationError) -> Seq<char> {
    match e {
        ParseOperationError::InvalidCharacter(ch) =>
            "Parsing of operation failed due to following invalid character: "@.push(ch),
        ParseOperationError::EmptyInput => "No operands provided!"@,
    }
}

impl ParseOperationError {
    /// The human-readable description of the error.
    pub fn message(&self) -> (res: String)
        ensures
            res@ == parse_operation_message(*self),
    {
        match self {
            ParseOperationError::InvalidCharacter(ch) => {
                let mut v = str_to_chars(
                    "Parsing of operation failed due to following invalid character: ",
                );
                v.push(*ch);
                chars_to_string(v.as_slice())
            },
            ParseOperationError::EmptyInput => {
                let v = str_to_chars("No operands provided!");
                chars_to_string(v.as_slice())
            },
        }
    }
}

} // verus!
