//! The first form of fold expressions, read without signs or a cursor.

use vstd::prelude::*;
use crate::decimal::{Decimal, DecimalView};
use crate::fold_expr::views;
use crate::operation::{Operation, ParseOperationError, operation_of_char};
use crate::text::{
    is_whitespace, spec_digit_value, spec_is_digit, spec_is_whitespace, to_digit, trim_bounds,
    trim_ws, all_whitespace, lemma_trim_ws_padding,
};

verus! {

/// A fold expression of the first form: an operation and its operands.
pub struct FoldExpression {
    pub operands: Vec<Decimal>,
    pub operation: Operation,
}

/// Why a fold expression of the first form could not be read.
#[derive(Clone, Copy, Debug, PartialEq, Eq, Structural)]
pub enum ParseFoldExpressionError {
    InvalidCharacter(char),
    OperationError(ParseOperationError),
}

impl From<ParseOperationError> for ParseFoldExpressionError {
    fn from(err: ParseOperationError) -> (res: ParseFoldExpressionError) {
        ParseFoldExpressionError::OperationError(err)
    }
}

impl vstd::std_specs::convert::FromSpecImpl<ParseOperationError> for ParseFoldExpressionError {
    open spec fn obeys_from_spec() -> bool {
        true
    }

    open spec fn from_spec(err: ParseOperationError) -> ParseFoldExpressionError {
        ParseFoldExpressionError::OperationError(err)
    }
}

/// The state of this form's scanner between two characters.
pub struct ExprScan {
    pub operands: Seq<DecimalView>,
    pub digits: Seq<u8>,
    pub scale: nat,
    pub already_float: bool,
    pub first_digit: bool,
}

pub open spec fn expr_scan_start() -> ExprScan {
    ExprScan { operands: seq![], digits: seq![], scale: 0, already_float: false, first_digit: true }
}

/// One step of this form's scanner: white space completes a numeral that has a
/// digit, one decimal point is taken per numeral, anything else but a digit is
/// refused.
pub open spec fn expr_scan_step(s: ExprScan, ch: char) -> Result<ExprScan, ParseFoldExpressionError> {
    if spec_is_whitespace(ch) {
        if !s.first_digit {
            Ok(
                ExprScan {
                    operands: s.operands.push(
                        DecimalView { negative: false, digits: s.digits, scale: s.scale },
                    ),
                    ..expr_scan_start()
                },
            )
        } else {
            Ok(s)
        }
    } else if ch == '.' && !s.already_float {
        Ok(ExprScan { already_float: true, ..s })
    } else if spec_is_digit(ch) {
        Ok(
            ExprScan {
                digits: s.digits.push(spec_digit_value(ch)),
                scale: if s.already_float { s.scale + 1 } else { s.scale },
                first_digit: false,
                ..s
            },
        )
    } else {
        Err(ParseFoldExpressionError::InvalidCharacter(ch))
    }
}

/// This form's scanner run over a text.
pub open spec fn expr_scan(chars: Seq<char>) -> Result<ExprScan, ParseFoldExpressionError>
    decreases chars.len(),
{
    if chars.len() == 0 {
        Ok(expr_scan_start())
    } else {
        match expr_scan(chars.drop_last()) {
            Ok(s) => expr_scan_step(s, chars.last()),
            Err(e) => Err(e),
        }
    }
}

/// What reading this form yields. Only numerals followed by white space are
/// completed, so the last numeral of the text is never taken; of those taken, the
/// first is dropped.
pub open spec fn expression_parse_spec(chars: Seq<char>) -> Result<
    (Operation, Seq<DecimalView>),
    ParseFoldExpressionError,
> {
    let t = trim_ws(chars);
    if t.len() == 0 {
        Err(ParseFoldExpressionError::OperationError(ParseOperationError::EmptyInput))
    } else {
        match operation_of_char(t[0]) {
            None => Err(
                ParseFoldExpressionError::OperationError(
                    ParseOperationError::InvalidCharacter(t[0]),
                ),
            ),
            Some(op) => match expr_scan(t.drop_first()) {
                Err(e) => Err(e),
                Ok(s) => Ok((op, if s.operands.len() == 0 { s.operands } else { s.operands.drop_first() })),
            },
        }
    }
}

proof fn lemma_expr_scan_error_extends(chars: Seq<char>, n: int)
    requires
        0 <= n <= chars.len(),
        expr_scan(chars.take(n)) is Err,
    ensures
        expr_scan(chars) == expr_scan(chars.take(n)),
    decreases chars.len(),
{
    if n < chars.len() {
        assert(chars.drop_last().take(n) =~= chars.take(n));
        lemma_expr_scan_error_extends(chars.drop_last(), n);
    } else {
        assert(chars.take(n) =~= chars);
    }
}

/// White space before and after an expression's text does not change what is
/// read.
pub proof fn lemma_expression_ignores_padding(a: Seq<char>, s: Seq<char>, b: Seq<char>)
    requires
        all_whitespace(a),
        all_whitespace(b),
    ensures
        expression_parse_spec(a + s + b) == expression_parse_spec(s),
{
    lemma_trim_ws_padding(a, s, b);
}

impl FoldExpression {
    /// Reads a fold expression of the first form from its text.
    pub fn try_from_chars(chars: &[char]) -> (res: Result<FoldExpression, ParseFoldExpressionError>)
        ensures
            res matches Ok(e) ==> expression_parse_spec(chars@) == Ok::<
                (Operation, Seq<DecimalView>),
                ParseFoldExpressionError,
            >((e.operation, views(e.operands@))),
            res matches Err(e) ==> expression_parse_spec(chars@) == Err::<
                (Operation, Seq<DecimalView>),
                ParseFoldExpressionError,
            >(e),
    {
        let (start, end) = trim_bounds(chars);
        let ghost t = chars@.subrange(start as int, end as int);
        if start == end {
            return Err(ParseFoldExpressionError::OperationError(ParseOperationError::EmptyInput));
        }
        assert(t[0] == chars@[start as int]);
        let operation = match Operation::try_from_char(chars[start]) {
            Ok(op) => op,
            Err(e) => {
                return Err(ParseFoldExpressionError::OperationError(e));
            },
        };
        let ghost body = t.drop_first();
        let mut operands: Vec<Decimal> = Vec::new();
        let mut digits: Vec<u8> = Vec::new();
        let mut scale: usize = 0;
        let mut already_float = false;
        let mut first_digit = true;
        let mut k: usize = start + 1;
        assert(body.take(0) =~= Seq::<char>::empty());
        assert(views(operands@) =~= Seq::<DecimalView>::empty());
        assert(digits@ =~= Seq::<u8>::empty());
        while k < end
            invariant
                start < end <= chars.len(),
                start + 1 <= k <= end,
                t == chars@.subrange(start as int, end as int),
                t == trim_ws(chars@),
                t.len() > 0,
                operation_of_char(t[0]) == Some(operation),
                body == t.drop_first(),
                expr_scan(body.take(k - start - 1)) == Ok::<ExprScan, ParseFoldExpressionError>(
                    ExprScan {
                        operands: views(operands@),
                        digits: digits@,
                        scale: scale as nat,
                        already_float,
                        first_digit,
                    },
                ),
                scale <= digits.len() <= k,
            decreases end - k,
        {
            let ch = chars[k];
            let pos = k - start;
            assert(body.take(pos as int).drop_last() =~= body.take(pos - 1));
            assert(body.take(pos as int).last() == ch);
            if is_whitespace(ch) {
                if !first_digit {
                    let d = Decimal { negative: false, digits, scale };
                    assert(views(operands@.push(d)) =~= views(operands@).push(d@));
                    operands.push(d);
                    digits = Vec::new();
                    scale = 0;
                    already_float = false;
                    first_digit = true;
                    assert(digits@ =~= Seq::<u8>::empty());
                }
            } else if ch == '.' && !already_float {
                already_float = true;
            } else {
                match to_digit(ch) {
                    Some(d) => {
                        digits.push(d);
                        first_digit = false;
                        if already_float {
                            scale = scale + 1;
                        }
                    },
                    None => {
                        proof {
                            assert(expr_scan(body.take(pos as int)) is Err);
                            lemma_expr_scan_error_extends(body, pos as int);
                            assert(expr_scan(body) == Err::<ExprScan, ParseFoldExpressionError>(
                                ParseFoldExpressionError::InvalidCharacter(ch),
                            ));
                        }
                        return Err(ParseFoldExpressionError::InvalidCharacter(ch));
                    },
                }
            }
            k = k + 1;
        }
        assert(body.take(k - start - 1) =~= body);
        if operands.len() > 0 {
            let ghost all = operands@;
            operands.remove(0);
            assert(views(operands@) =~= views(all).drop_first());
        }
        Ok(FoldExpression { operands, operation })
    }
}

impl ParseFoldExpressionError {
    /// The human-readable description of the error.
    pub fn message(&self) -> (res: String)
        ensures
            self matches ParseFoldExpressionError::InvalidCharacter(ch) ==> res@
                == "Parsing of fold expression failed due to following character: "@.push(*ch),
            self matches ParseFoldExpressionError::OperationError(e) ==> res@
                == "Parsing of fold expression failed at operation parsing step: "@
                + crate::operation::parse_operation_message(*e),
    {
        match self {
            ParseFoldExpressionError::InvalidCharacter(ch) => {
                let mut v = crate::text::str_to_chars(
                    "Parsing of fold expression failed due to following character: ",
                );
                v.push(*ch);
                crate::text::chars_to_string(v.as_slice())
            },
            ParseFoldExpressionError::OperationError(e) => {
                let mut v = crate::text::str_to_chars(
                    "Parsing of fold expression failed at operation parsing step: ",
                );
                let m = e.message();
                let mut w = crate::text::str_to_chars(m.as_str());
                v.append(&mut w);
                crate::text::chars_to_string(v.as_slice())
            },
        }
    }
}

} // verus!
