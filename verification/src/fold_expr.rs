//! Fold expressions: an operator and a list of operands, with one operand marked
//! as the current one. The text form is the operator followed by white-space
//! separated numerals, for example `+ 1 2.5 -3`.

use vstd::prelude::*;
use crate::decimal::{Decimal, DecimalView};
use crate::operation::{Operation, ParseOperationError, operation_of_char};
use crate::text::{
    chars_to_string, is_whitespace, spec_digit_value, spec_is_digit, spec_is_whitespace,
    str_to_chars, to_digit, trim_bounds, trim_ws, usize_to_chars, decimal_text, all_digit_chars,
    digit_values, lemma_digit_values_push, lemma_trim_ws_unpadded,
};

verus! {

/// Why a fold expression could not be read.
#[derive(Clone, Copy, Debug, PartialEq, Eq, Structural)]
pub enum FoldExprError {
    ParseError(ParseFoldExprError),
}

/// What went wrong while reading a fold expression.
#[derive(Clone, Copy, Debug, PartialEq, Eq, Structural)]
pub enum ParseFoldExprError {
    /// A character that has no place in an operand, with its position counted
    /// from the operator, which is position 0.
    InvalidCharacter(char, usize),
    OperationError(ParseOperationError),
}

/// The description of an error in reading a fold expression.
pub open spec fn parse_fold_message(e: ParseFoldExprError) -> Seq<char> {
    match e {
        ParseFoldExprError::InvalidCharacter(ch, pos) =>
            "Parsing of fold expression failed due to invalid character '"@.push(ch)
                + "' appearing at position "@ + decimal_text(pos as nat)
                + " after the operator (the operator itself marks position 0)"@,
        ParseFoldExprError::OperationError(e) =>
            "Parsing of fold expression failed at operation parsing step: "@
                + crate::operation::parse_operation_message(e),
    }
}

impl ParseFoldExprError {
    /// The human-readable description of the error.
    pub fn message(&self) -> (res: String)
        ensures
            res@ == parse_fold_message(*self),
    {
        let mut v: Vec<char> = Vec::new();
        match self {
            ParseFoldExprError::InvalidCharacter(ch, pos) => {
                crate::text::push_str(
                    &mut v,
                    "Parsing of fold expression failed due to invalid character '",
                );
                v.push(*ch);
                crate::text::push_str(&mut v, "' appearing at position ");
                let mut digits = usize_to_chars(*pos);
                v.append(&mut digits);
                crate::text::push_str(
                    &mut v,
                    " after the operator (the operator itself marks position 0)",
                );
            },
            ParseFoldExprError::OperationError(e) => {
                crate::text::push_str(
                    &mut v,
                    "Parsing of fold expression failed at operation parsing step: ",
                );
                let m = e.message();
                crate::text::push_str(&mut v, m.as_str());
            },
        }
        assert(v@ =~= parse_fold_message(*self));
        chars_to_string(v.as_slice())
    }
}

impl FoldExprError {
    /// The human-readable description of the error.
    pub fn message(&self) -> (res: String)
        ensures
            self matches FoldExprError::ParseError(e) ==> res@ == "Error parsing `FoldExpr`: "@
                + parse_fold_message(*e),
    {
        match self {
            FoldExprError::ParseError(e) => {
                let mut v = str_to_chars("Error parsing `FoldExpr`: ");
                let m = e.message();
                crate::text::push_str(&mut v, m.as_str());
                chars_to_string(v.as_slice())
            },
        }
    }
}

impl From<ParseFoldExprError> for FoldExprError {
    fn from(err: ParseFoldExprError) -> (res: FoldExprError) {
        FoldExprError::ParseError(err)
    }
}

impl vstd::std_specs::convert::FromSpecImpl<ParseFoldExprError> for FoldExprError {
    open spec fn obeys_from_spec() -> bool {
        true
    }

    open spec fn from_spec(err: ParseFoldExprError) -> FoldExprError {
        FoldExprError::ParseError(err)
    }
}

impl From<ParseOperationError> for FoldExprError {
    fn from(err: ParseOperationError) -> (res: FoldExprError) {
        FoldExprError::ParseError(ParseFoldExprError::OperationError(err))
    }
}

impl vstd::std_specs::convert::FromSpecImpl<ParseOperationError> for FoldExprError {
    open spec fn obeys_from_spec() -> bool {
        true
    }

    open spec fn from_spec(err: ParseOperationError) -> FoldExprError {
        FoldExprError::ParseError(ParseFoldExprError::OperationError(err))
    }
}

impl From<ParseOperationError> for ParseFoldExprError {
    fn from(err: ParseOperationError) -> (res: ParseFoldExprError) {
        ParseFoldExprError::OperationError(err)
    }
}

impl vstd::std_specs::convert::FromSpecImpl<ParseOperationError> for ParseFoldExprError {
    open spec fn obeys_from_spec() -> bool {
        true
    }

    open spec fn from_spec(err: ParseOperationError) -> ParseFoldExprError {
        ParseFoldExprError::OperationError(err)
    }
}

/// The state of the operand scanner between two characters.
pub struct FoldScan {
    /// The operands completed so far.
    pub operands: Seq<DecimalView>,
    /// The digits of the operand being read.
    pub digits: Seq<u8>,
    /// How many of those digits stand after a decimal point.
    pub scale: nat,
    pub already_float: bool,
    pub negative: bool,
    /// No digit has been read for the current operand yet.
    pub first_digit: bool,
    /// The index of the operand under the cursor, once the cursor was passed.
    pub cur_operand: Option<usize>,
}

pub open spec fn fold_scan_start() -> FoldScan {
    FoldScan {
        operands: seq![],
        digits: seq![],
        scale: 0,
        already_float: false,
        negative: false,
        first_digit: true,
        cur_operand: None,
    }
}

/// Completes the operand being read.
pub open spec fn fold_scan_flush(s: FoldScan) -> FoldScan {
    FoldScan {
        operands: s.operands.push(
            DecimalView { negative: s.negative, digits: s.digits, scale: s.scale },
        ),
        digits: seq![],
        scale: 0,
        already_float: false,
        negative: false,
        first_digit: true,
        cur_operand: s.cur_operand,
    }
}

/// The scanner's reaction to one character; `None` for a character that is refused.
/// White space ends an operand once it has a digit; a point and a minus sign are
/// taken once per operand, wherever they stand in it.
pub open spec fn fold_scan_char(s: FoldScan, ch: char) -> Option<FoldScan> {
    if spec_is_whitespace(ch) {
        Some(if s.first_digit { s } else { fold_scan_flush(s) })
    } else if ch == '.' && !s.already_float {
        Some(FoldScan { already_float: true, ..s })
    } else if ch == '-' && !s.negative {
        Some(FoldScan { negative: true, ..s })
    } else if spec_is_digit(ch) {
        Some(
            FoldScan {
                digits: s.digits.push(spec_digit_value(ch)),
                scale: if s.already_float { s.scale + 1 } else { s.scale },
                first_digit: false,
                ..s
            },
        )
    } else {
        None
    }
}

/// One step of the scanner at position `pos`; a digit at the cursor's position
/// marks the operand it belongs to as the current one.
pub open spec fn fold_scan_step(s: FoldScan, ch: char, pos: usize, cursor: usize) -> Result<
    FoldScan,
    ParseFoldExprError,
> {
    match fold_scan_char(s, ch) {
        None => Err(ParseFoldExprError::InvalidCharacter(ch, pos)),
        Some(n) => Ok(
            if pos == cursor && spec_is_digit(ch) {
                FoldScan { cur_operand: Some(n.operands.len() as usize), ..n }
            } else {
                n
            },
        ),
    }
}

/// The scanner run over the characters that follow the operator; the first of
/// them is at position 1.
pub open spec fn fold_scan(chars: Seq<char>, cursor: usize) -> Result<FoldScan, ParseFoldExprError>
    decreases chars.len(),
{
    if chars.len() == 0 {
        Ok(fold_scan_start())
    } else {
        match fold_scan(chars.drop_last(), cursor) {
            Ok(s) => fold_scan_step(s, chars.last(), chars.len() as usize, cursor),
            Err(e) => Err(e),
        }
    }
}

/// The scanner's state at the end of the text: an operand being read is completed.
pub open spec fn fold_scan_finish(s: FoldScan) -> FoldScan {
    if s.first_digit {
        s
    } else {
        fold_scan_flush(s)
    }
}

/// The operands that are not zero, in order.
pub open spec fn without_zeros(s: Seq<DecimalView>) -> Seq<DecimalView>
    decreases s.len(),
{
    if s.len() == 0 {
        seq![]
    } else if s.last().is_zero() {
        without_zeros(s.drop_last())
    } else {
        without_zeros(s.drop_last()).push(s.last())
    }
}

/// All operands are zero.
pub open spec fn all_zero_operands(s: Seq<DecimalView>) -> bool {
    forall|i: int| 0 <= i < s.len() ==> (#[trigger] s[i]).is_zero()
}

/// A sum of several operands drops its zeros; if all of them are zero it keeps the
/// first. The current operand is then moved onto the last one kept if it lay beyond.
pub open spec fn fold_normalize(op: Operation, operands: Seq<DecimalView>, cur: Option<usize>) -> (
    Seq<DecimalView>,
    Option<usize>,
) {
    if operands.len() <= 1 || op != Operation::Addition {
        (operands, cur)
    } else {
        let kept = if all_zero_operands(operands) {
            seq![operands[0]]
        } else {
            without_zeros(operands)
        };
        (
            kept,
            match cur {
                Some(i) => Some(if i < kept.len() { i } else { (kept.len() - 1) as usize }),
                None => None,
            },
        )
    }
}

/// What reading a fold expression's text yields: the operation, the operands, and
/// the index of the operand under the cursor.
pub open spec fn fold_parse_spec(slice: Seq<char>, cursor: usize) -> Result<
    (Operation, Seq<DecimalView>, Option<usize>),
    FoldExprError,
> {
    let t = trim_ws(slice);
    if t.len() == 0 {
        Err(
            FoldExprError::ParseError(
                ParseFoldExprError::OperationError(ParseOperationError::EmptyInput),
            ),
        )
    } else {
        match operation_of_char(t[0]) {
            None => Err(
                FoldExprError::ParseError(
                    ParseFoldExprError::OperationError(
                        ParseOperationError::InvalidCharacter(t[0]),
                    ),
                ),
            ),
            Some(op) => match fold_scan(t.drop_first(), cursor) {
                Err(e) => Err(FoldExprError::ParseError(e)),
                Ok(s) => {
                    let f = fold_scan_finish(s);
                    let (ops, cur) = fold_normalize(op, f.operands, f.cur_operand);
                    Ok((op, ops, cur))
                },
            },
        }
    }
}

/// The scanner stands between operands: nothing of a next operand has been read.
pub open spec fn fold_scan_between(s: FoldScan) -> bool {
    &&& s.first_digit
    &&& !s.already_float
    &&& !s.negative
    &&& s.digits.len() == 0
    &&& s.scale == 0
}

proof fn lemma_fold_scan_push(p: Seq<char>, x: char, c: usize)
    ensures
        fold_scan(p.push(x), c) == match fold_scan(p, c) {
            Ok(s) => fold_scan_step(s, x, (p.len() + 1) as usize, c),
            Err(e) => Err(e),
        },
{
    assert(p.push(x).drop_last() =~= p);
}

/// Reading a run of digits appends their values to the operand being read, and
/// after a point each of them adds one decimal place.
proof fn lemma_fold_scan_digits(p: Seq<char>, ds: Seq<char>, c: usize)
    requires
        fold_scan(p, c) is Ok,
        all_digit_chars(ds),
    ensures
        ({
            let s = fold_scan(p, c)->Ok_0;
            fold_scan(p + ds, c) matches Ok(t) && t.operands == s.operands && t.digits
                == s.digits + digit_values(ds) && t.scale == s.scale + (if s.already_float {
                ds.len()
            } else {
                0
            }) && t.already_float == s.already_float && t.negative == s.negative
                && t.first_digit == (s.first_digit && ds.len() == 0)
        }),
    decreases ds.len(),
{
    if ds.len() == 0 {
        assert(p + ds =~= p);
        assert(digit_values(ds) =~= Seq::<u8>::empty());
        assert(fold_scan(p, c)->Ok_0.digits + digit_values(ds) =~= fold_scan(p, c)->Ok_0.digits);
    } else {
        let q = ds.drop_last();
        let x = ds.last();
        assert(spec_is_digit(ds[ds.len() - 1]));
        lemma_fold_scan_digits(p, q, c);
        assert(p + ds =~= (p + q).push(x));
        lemma_fold_scan_push(p + q, x, c);
        assert(q.push(x) =~= ds);
        lemma_digit_values_push(q, x);
        let s = fold_scan(p, c)->Ok_0;
        assert(s.digits + digit_values(ds) =~= (s.digits + digit_values(q)).push(
            spec_digit_value(x),
        ));
    }
}

/// A numeral `ds.fs` after white space, read from between operands, leaves the
/// scanner with exactly those digits and as many decimal places as `fs` has.
proof fn lemma_fold_scan_numeral(p: Seq<char>, c: usize, ds: Seq<char>, fs: Seq<char>)
    requires
        fold_scan(p, c) matches Ok(s) && fold_scan_between(s),
        all_digit_chars(ds),
        all_digit_chars(fs),
        ds.len() + fs.len() > 0,
    ensures
        fold_scan(p + seq![' '] + ds + seq!['.'] + fs, c) matches Ok(t) && t.operands
            == fold_scan(p, c)->Ok_0.operands && t.digits == digit_values(ds) + digit_values(fs)
            && t.scale == fs.len() && !t.negative && !t.first_digit,
{
    let s = fold_scan(p, c)->Ok_0;
    let p1 = p.push(' ');
    lemma_fold_scan_push(p, ' ', c);
    lemma_fold_scan_digits(p1, ds, c);
    let p2 = p1 + ds;
    let p3 = p2.push('.');
    lemma_fold_scan_push(p2, '.', c);
    lemma_fold_scan_digits(p3, fs, c);
    assert(p + seq![' '] + ds + seq!['.'] + fs =~= p3 + fs);
    assert(s.digits + digit_values(ds) =~= digit_values(ds));
}

/// After a complete operand, a space, a numeral typed as the digits `ds`, a
/// point and the digits `fs`, and a space add exactly one operand: the number
/// with the digits of `ds` and `fs` and as many decimal places as `fs` has
/// digits. The scanner then stands between operands again.
pub proof fn lemma_scan_reads_decimal(p: Seq<char>, c: usize, ds: Seq<char>, fs: Seq<char>)
    requires
        fold_scan(p, c) matches Ok(s) && fold_scan_between(s),
        all_digit_chars(ds),
        all_digit_chars(fs),
        ds.len() + fs.len() > 0,
    ensures
        fold_scan(p + seq![' '] + ds + seq!['.'] + fs + seq![' '], c) matches Ok(t)
            && fold_scan_between(t) && t.operands == fold_scan(p, c)->Ok_0.operands.push(
            DecimalView {
                negative: false,
                digits: digit_values(ds) + digit_values(fs),
                scale: fs.len(),
            },
        ),
{
    lemma_fold_scan_numeral(p, c, ds, fs);
    lemma_fold_scan_push(p + seq![' '] + ds + seq!['.'] + fs, ' ', c);
    assert(p + seq![' '] + ds + seq!['.'] + fs + seq![' '] =~= (p + seq![' '] + ds + seq!['.']
        + fs).push(' '));
}

/// After a complete operand, a space, a whole number typed as the digits `ds`
/// and a space add exactly that number as one operand, with no decimal places.
pub proof fn lemma_scan_reads_integer(p: Seq<char>, c: usize, ds: Seq<char>)
    requires
        fold_scan(p, c) matches Ok(s) && fold_scan_between(s),
        all_digit_chars(ds),
        ds.len() > 0,
    ensures
        fold_scan(p + seq![' '] + ds + seq![' '], c) matches Ok(t) && fold_scan_between(t)
            && t.operands == fold_scan(p, c)->Ok_0.operands.push(
            DecimalView { negative: false, digits: digit_values(ds), scale: 0 },
        ),
{
    let s = fold_scan(p, c)->Ok_0;
    let p1 = p.push(' ');
    lemma_fold_scan_push(p, ' ', c);
    lemma_fold_scan_digits(p1, ds, c);
    lemma_fold_scan_push(p1 + ds, ' ', c);
    assert(p + seq![' '] + ds + seq![' '] =~= (p1 + ds).push(' '));
    assert(s.digits + digit_values(ds) =~= digit_values(ds));
}

/// An operator, a space and a numeral typed as the digits `ds`, a point and the
/// digits `fs` read as that operation with the single operand whose digits are
/// those of `ds` and `fs` and whose decimal places are the digits of `fs`.
pub proof fn lemma_parse_reads_decimal(op_ch: char, ds: Seq<char>, fs: Seq<char>, cursor: usize)
    requires
        operation_of_char(op_ch) is Some,
        all_digit_chars(ds),
        all_digit_chars(fs),
        ds.len() + fs.len() > 0,
    ensures
        fold_parse_spec(seq![op_ch, ' '] + ds + seq!['.'] + fs, cursor) matches Ok((op, ops, _))
            && Some(op) == operation_of_char(op_ch) && ops == seq![
            DecimalView {
                negative: false,
                digits: digit_values(ds) + digit_values(fs),
                scale: fs.len(),
            },
        ],
{
    let text = seq![op_ch, ' '] + ds + seq!['.'] + fs;
    let e = Seq::<char>::empty();
    assert(text[0] == op_ch);
    if fs.len() > 0 {
        assert(text.last() == fs.last());
        assert(spec_is_digit(fs[fs.len() - 1]));
    } else {
        assert(text.last() == '.');
    }
    lemma_trim_ws_unpadded(text);
    assert(text.drop_first() =~= e + seq![' '] + ds + seq!['.'] + fs);
    assert(fold_scan(e, cursor) == Ok::<FoldScan, ParseFoldExprError>(fold_scan_start()));
    lemma_fold_scan_numeral(e, cursor, ds, fs);
}

/// The views of a list of numerals.
pub open spec fn views(v: Seq<Decimal>) -> Seq<DecimalView> {
    v.map_values(|d: Decimal| d@)
}

/// A fold expression as read from text.
pub struct ParsedFoldExpr {
    pub operation: Operation,
    pub operands: Vec<Decimal>,
    pub cur_operand: Option<usize>,
}

/// Once the scanner refuses a prefix, it refuses the whole text with the same error.
proof fn lemma_fold_scan_error_extends(chars: Seq<char>, n: int, cursor: usize)
    requires
        0 <= n <= chars.len(),
        fold_scan(chars.take(n), cursor) is Err,
    ensures
        fold_scan(chars, cursor) == fold_scan(chars.take(n), cursor),
    decreases chars.len(),
{
    if n < chars.len() {
        assert(chars.drop_last().take(n) =~= chars.take(n));
        lemma_fold_scan_error_extends(chars.drop_last(), n, cursor);
    } else {
        assert(chars.take(n) =~= chars);
    }
}

proof fn lemma_views_push(v: Seq<Decimal>, d: Decimal)
    ensures
        views(v.push(d)) == views(v).push(d@),
{
    assert(views(v.push(d)) =~= views(v).push(d@));
}

/// Dropping the zeros of a list that is not all zeros leaves at least one operand.
proof fn lemma_without_zeros_nonempty(s: Seq<DecimalView>)
    requires
        !all_zero_operands(s),
    ensures
        without_zeros(s).len() > 0,
    decreases s.len(),
{
    if s.len() > 0 && s.last().is_zero() {
        if all_zero_operands(s.drop_last()) {
            assert forall|i: int| 0 <= i < s.len() implies (#[trigger] s[i]).is_zero() by {
                if i < s.len() - 1 {
                    assert(s.drop_last()[i] == s[i]);
                }
            }
        }
        lemma_without_zeros_nonempty(s.drop_last());
    }
}

/// Every operand that is kept is well formed when all operands were, and none is zero.
proof fn lemma_without_zeros_wf(s: Seq<DecimalView>)
    requires
        forall|i: int| 0 <= i < s.len() ==> (#[trigger] s[i]).wf(),
    ensures
        forall|i: int| 0 <= i < without_zeros(s).len() ==> (#[trigger] without_zeros(s)[i]).wf(),
        forall|i: int|
            0 <= i < without_zeros(s).len() ==> !(#[trigger] without_zeros(s)[i]).is_zero(),
    decreases s.len(),
{
    if s.len() > 0 {
        let init = s.drop_last();
        assert forall|i: int| 0 <= i < init.len() implies (#[trigger] init[i]).wf() by {
            assert(init[i] == s[i]);
        }
        lemma_without_zeros_wf(init);
        let w = without_zeros(s);
        let wi = without_zeros(init);
        if !s.last().is_zero() {
            assert(w == wi.push(s.last()));
            assert forall|i: int| 0 <= i < w.len() implies (#[trigger] w[i]).wf() && !w[i].is_zero() by {
                if i < wi.len() {
                    assert(w[i] == wi[i]);
                } else {
                    assert(w[i] == s[s.len() - 1]);
                }
            }
        }
    }
}

/// The operands and the current operand that the scanner yields for the text
/// between `start` (the operator) and `end`.
fn scan_operands(slice: &[char], start: usize, end: usize, cursor_pos: usize) -> (res: Result<
    (Vec<Decimal>, Option<usize>),
    ParseFoldExprError,
>)
    requires
        start < end <= slice.len(),
    ensures
        ({
            let body = slice@.subrange(start + 1, end as int);
            match fold_scan(body, cursor_pos) {
                Ok(s) => res matches Ok(r) && views(r.0@) == fold_scan_finish(s).operands && r.1
                    == fold_scan_finish(s).cur_operand,
                Err(e) => res == Err::<(Vec<Decimal>, Option<usize>), ParseFoldExprError>(e),
            }
        }),
        res matches Ok(r) ==> forall|i: int| 0 <= i < r.0.len() ==> (#[trigger] r.0@[i])@.wf(),
        res matches Ok(r) ==> (r.1 matches Some(i) ==> i < r.0.len()),
{
    let ghost body = slice@.subrange(start + 1, end as int);
    let mut operands: Vec<Decimal> = Vec::new();
    let mut digits: Vec<u8> = Vec::new();
    let mut scale: usize = 0;
    let mut already_float = false;
    let mut negative = false;
    let mut first_digit = true;
    let mut cur_operand: Option<usize> = None;
    let mut k: usize = start + 1;
    assert(body.take(0) =~= Seq::<char>::empty());
    assert(views(operands@) =~= Seq::<DecimalView>::empty());
    assert(digits@ =~= Seq::<u8>::empty());
    while k < end
        invariant
            start < end <= slice.len(),
            start + 1 <= k <= end,
            body == slice@.subrange(start + 1, end as int),
            fold_scan(body.take(k - start - 1), cursor_pos) == Ok::<
                FoldScan,
                ParseFoldExprError,
            >(
                FoldScan {
                    operands: views(operands@),
                    digits: digits@,
                    scale: scale as nat,
                    already_float,
                    negative,
                    first_digit,
                    cur_operand,
                },
            ),
            scale <= digits.len() <= k,
            first_digit <==> digits.len() == 0,
            crate::decimal::all_digits(digits@),
            forall|i: int| 0 <= i < operands.len() ==> (#[trigger] operands@[i])@.wf(),
            operands.len() <= k,
            cur_operand matches Some(i) ==> (i < operands.len() || (i == operands.len()
                && !first_digit)),
        decreases end - k,
    {
        let ch = slice[k];
        let pos = k - start;
        assert(body.take(pos as int).drop_last() =~= body.take(pos - 1));
        assert(body.take(pos as int).last() == ch);
        if is_whitespace(ch) {
            if !first_digit {
                proof {
                    lemma_views_push(operands@, Decimal { negative, digits: digits, scale });
                }
                let d = Decimal { negative, digits, scale };
                operands.push(d);
                digits = Vec::new();
                scale = 0;
                already_float = false;
                negative = false;
                first_digit = true;
                assert(digits@ =~= Seq::<u8>::empty());
            }
        } else if ch == '.' && !already_float {
            already_float = true;
        } else if ch == '-' && !negative {
            negative = true;
        } else {
            match to_digit(ch) {
                Some(d) => {
                    digits.push(d);
                    first_digit = false;
                    if already_float {
                        scale = scale + 1;
                    }
                },
                None => {
                    proof {
                        lemma_fold_scan_error_extends(body, pos as int, cursor_pos);
                    }
                    return Err(ParseFoldExprError::InvalidCharacter(ch, pos));
                },
            }
        }
        if pos == cursor_pos && to_digit(ch).is_some() {
            cur_operand = Some(operands.len());
        }
        k = k + 1;
    }
    assert(body.take(k - start - 1) =~= body);
    if !first_digit {
        proof {
            lemma_views_push(operands@, Decimal { negative, digits: digits, scale });
        }
        let d = Decimal { negative, digits, scale };
        operands.push(d);
    }
    Ok((operands, cur_operand))
}

/// Whether every operand is zero.
fn all_operands_zero(operands: &Vec<Decimal>) -> (res: bool)
    ensures
        res == all_zero_operands(views(operands@)),
{
    let mut i: usize = 0;
    while i < operands.len()
        invariant
            i <= operands.len(),
            forall|j: int| 0 <= j < i ==> (#[trigger] operands@[j])@.is_zero(),
        decreases operands.len() - i,
    {
        if !operands[i].is_zero() {
            assert(!views(operands@)[i as int].is_zero());
            return false;
        }
        i = i + 1;
    }
    assert forall|j: int| 0 <= j < views(operands@).len() implies (#[trigger] views(
        operands@,
    )[j]).is_zero() by {
        assert(operands@[j]@.is_zero());
    }
    true
}

/// The operands of a sum of several operands without its zeros, or its first
/// operand alone if all are zero; other expressions keep their operands.
fn normalize(operation: Operation, operands: Vec<Decimal>, cur_operand: Option<usize>) -> (res: (
    Vec<Decimal>,
    Option<usize>,
))
    requires
        forall|i: int| 0 <= i < operands.len() ==> (#[trigger] operands@[i])@.wf(),
        cur_operand matches Some(i) ==> i < operands.len(),
    ensures
        (views(res.0@), res.1) == fold_normalize(operation, views(operands@), cur_operand),
        forall|i: int| 0 <= i < res.0.len() ==> (#[trigger] res.0@[i])@.wf(),
        res.1 matches Some(i) ==> i < res.0.len(),
        (operation == Operation::Addition && res.0.len() > 1) ==> forall|i: int|
            0 <= i < res.0.len() ==> !(#[trigger] res.0@[i])@.is_zero(),
{
    let ghost ops0 = views(operands@);
    let is_addition = match operation {
        Operation::Addition => true,
        _ => false,
    };
    if operands.len() <= 1 || !is_addition {
        return (operands, cur_operand);
    }
    assert(forall|i: int| 0 <= i < ops0.len() ==> (#[trigger] ops0[i]).wf());
    let mut kept: Vec<Decimal> = Vec::new();
    if all_operands_zero(&operands) {
        let first = operands[0].duplicate();
        kept.push(first);
        assert(views(kept@) =~= seq![ops0[0]]);
    } else {
        let mut j: usize = 0;
        assert(ops0.take(0) =~= Seq::<DecimalView>::empty());
        assert(views(kept@) =~= Seq::<DecimalView>::empty());
        while j < operands.len()
            invariant
                j <= operands.len(),
                ops0 == views(operands@),
                views(kept@) == without_zeros(ops0.take(j as int)),
            decreases operands.len() - j,
        {
            assert(ops0.take(j + 1).drop_last() =~= ops0.take(j as int));
            assert(ops0.take(j + 1).last() == operands@[j as int]@);
            if !operands[j].is_zero() {
                let d = operands[j].duplicate();
                proof {
                    lemma_views_push(kept@, d);
                }
                kept.push(d);
            }
            j = j + 1;
        }
        assert(ops0.take(j as int) =~= ops0);
        proof {
            lemma_without_zeros_nonempty(ops0);
            lemma_without_zeros_wf(ops0);
        }
    }
    let new_cur = match cur_operand {
        Some(idx) => Some(if idx < kept.len() { idx } else { kept.len() - 1 }),
        None => None,
    };
    proof {
        assert forall|i: int| 0 <= i < kept.len() implies (#[trigger] kept@[i])@.wf() by {
            assert(views(kept@)[i] == kept@[i]@);
        }
        if kept.len() > 1 {
            assert(!all_zero_operands(ops0));
            lemma_without_zeros_wf(ops0);
            assert forall|i: int| 0 <= i < kept.len() implies !(#[trigger] kept@[i])@.is_zero() by {
                assert(views(kept@)[i] == kept@[i]@);
            }
        }
    }
    (kept, new_cur)
}

/// Reads a fold expression from its text. `cursor_pos` is the position of the
/// cursor counted from the operator; a digit there marks the current operand.
pub fn parse(slice: &[char], cursor_pos: usize) -> (res: Result<ParsedFoldExpr, FoldExprError>)
    ensures
        res matches Ok(p) ==> fold_parse_spec(slice@, cursor_pos) == Ok::<
            (Operation, Seq<DecimalView>, Option<usize>),
            FoldExprError,
        >((p.operation, views(p.operands@), p.cur_operand)),
        res matches Err(e) ==> fold_parse_spec(slice@, cursor_pos) == Err::<
            (Operation, Seq<DecimalView>, Option<usize>),
            FoldExprError,
        >(e),
        res matches Ok(p) ==> forall|i: int|
            0 <= i < p.operands.len() ==> (#[trigger] p.operands@[i])@.wf(),
        res matches Ok(p) ==> (p.cur_operand matches Some(i) ==> i < p.operands.len()),
        res matches Ok(p) ==> ((p.operation == Operation::Addition && p.operands.len() > 1)
            ==> forall|i: int| 0 <= i < p.operands.len() ==> !(#[trigger] p.operands@[i])@.is_zero()),
{
    let (start, end) = trim_bounds(slice);
    let ghost t = slice@.subrange(start as int, end as int);
    if start == end {
        return Err(
            FoldExprError::ParseError(
                ParseFoldExprError::OperationError(ParseOperationError::EmptyInput),
            ),
        );
    }
    assert(t[0] == slice@[start as int]);
    let operation = match Operation::try_from_char(slice[start]) {
        Ok(op) => op,
        Err(e) => {
            return Err(FoldExprError::ParseError(ParseFoldExprError::OperationError(e)));
        },
    };
    assert(t.drop_first() =~= slice@.subrange(start + 1, end as int));
    match scan_operands(slice, start, end, cursor_pos) {
        Err(e) => Err(FoldExprError::ParseError(e)),
        Ok((operands, cur_operand)) => {
            let (operands, cur_operand) = normalize(operation, operands, cur_operand);
            Ok(ParsedFoldExpr { operation, operands, cur_operand })
        },
    }
}

/// A fold expression: an operation, its operands, and the operand marked as
/// current. Operands are of any type; the calculator keeps them as floating-point
/// values.
pub struct FoldExpr<T> {
    pub operation: Operation,
    operands: Vec<T>,
    cur_operand: Option<usize>,
}

/// The index after `i` among `len` operands, wrapping round to the first.
pub open spec fn next_index(i: int, len: int) -> int {
    (i + 1) % len
}

/// The index before `i` among `len` operands, wrapping round to the last.
pub open spec fn previous_index(i: int, len: int) -> int {
    if i == 0 {
        len - 1
    } else {
        i - 1
    }
}

/// Reversing the operands twice gives them back in their first order.
pub proof fn lemma_reverse_twice<T>(s: Seq<T>)
    ensures
        s.reverse().reverse() == s,
{
    assert(s.reverse().reverse() =~= s);
}

/// Stepping forward and then back, or back and then forward, returns to the
/// operand one started from.
pub proof fn lemma_next_previous_inverse(i: int, len: int)
    requires
        0 <= i < len,
    ensures
        previous_index(next_index(i, len), len) == i,
        next_index(previous_index(i, len), len) == i,
        0 <= next_index(i, len) < len,
        0 <= previous_index(i, len) < len,
{
    if i + 1 < len {
        assert((i + 1) % len == i + 1) by (nonlinear_arith)
            requires
                0 <= i + 1 < len,
        ;
    } else {
        assert((i + 1) % len == 0) by (nonlinear_arith)
            requires
                i + 1 == len,
                len > 0,
        ;
    }
    if i == 0 {
        assert(len % len == 0) by (nonlinear_arith)
            requires
                len > 0,
        ;
    } else {
        assert(i % len == i) by (nonlinear_arith)
            requires
                0 < i < len,
        ;
    }
}

/// Stepping forward as many times as there are operands returns to the start.
pub open spec fn step_forward(i: int, len: int, n: nat) -> int
    decreases n,
{
    if n == 0 {
        i
    } else {
        next_index(step_forward(i, len, (n - 1) as nat), len)
    }
}

pub proof fn lemma_step_forward_cycles(i: int, len: int)
    requires
        0 <= i < len,
    ensures
        step_forward(i, len, len as nat) == i,
{
    lemma_step_forward_value(i, len, len as nat);
    vstd::arithmetic::div_mod::lemma_add_mod_noop(i, len, len);
    vstd::arithmetic::div_mod::lemma_mod_self_0(len);
    vstd::arithmetic::div_mod::lemma_small_mod(i as nat, len as nat);
}

proof fn lemma_step_forward_value(i: int, len: int, n: nat)
    requires
        0 <= i < len,
    ensures
        step_forward(i, len, n) == (i + n) % len,
    decreases n,
{
    if n == 0 {
        vstd::arithmetic::div_mod::lemma_small_mod(i as nat, len as nat);
    } else {
        lemma_step_forward_value(i, len, (n - 1) as nat);
        let x = i + n - 1;
        vstd::arithmetic::div_mod::lemma_add_mod_noop(x, 1, len);
        vstd::arithmetic::div_mod::lemma_add_mod_noop_right(x % len, 1, len);
    }
}

impl<T: Copy> FoldExpr<T> {
    /// The operands, in order.
    pub closed spec fn operand_seq(&self) -> Seq<T> {
        self.operands@
    }

    /// The operation.
    pub closed spec fn op(&self) -> Operation {
        self.operation
    }

    /// The index of the current operand.
    pub closed spec fn cur(&self) -> Option<usize> {
        self.cur_operand
    }

    /// The current operand's index does not lie past the end of the operands.
    pub open spec fn wf(&self) -> bool {
        self.cur() matches Some(i) ==> i <= self.operand_seq().len()
    }

    /// A fold expression with the given parts.
    pub fn new(operation: Operation, operands: Vec<T>, cur_operand: Option<usize>) -> (res: Self)
        requires
            cur_operand matches Some(i) ==> i <= operands.len(),
        ensures
            res.wf(),
            res.op() == operation,
            res.operand_seq() == operands@,
            res.cur() == cur_operand,
    {
        FoldExpr { operation, operands, cur_operand }
    }

    /// The operands, in order.
    pub fn operands(&self) -> (res: &Vec<T>)
        ensures
            res@ == self.operand_seq(),
    {
        &self.operands
    }

    /// The index of the current operand.
    pub fn cur_operand(&self) -> (res: Option<usize>)
        ensures
            res == self.cur(),
    {
        self.cur_operand
    }

    /// Takes the parts of a freshly read expression. The cursor's operand becomes
    /// the current one if it exists (the index just past the end counts); without
    /// one, the last operand does; with no operands, none does.
    pub fn assign_parsed(&mut self, operation: Operation, operands: Vec<T>, cur_operand: Option<
        usize,
    >)
        ensures
            final(self).wf(),
            final(self).op() == operation,
            final(self).operand_seq() == operands@,
            final(self).cur() == match cur_operand {
                Some(idx) => if idx <= operands.len() {
                    Some(idx)
                } else {
                    None
                },
                None => if operands.len() > 0 {
                    Some((operands.len() - 1) as usize)
                } else {
                    None
                },
            },
    {
        self.operation = operation;
        self.operands = operands;
        self.cur_operand = match cur_operand {
            Some(idx) => if idx <= self.operands.len() {
                Some(idx)
            } else {
                None
            },
            None => if self.operands.len() > 0 {
                Some(self.operands.len() - 1)
            } else {
                None
            },
        };
    }

    /// Reverses the order of the operands.
    pub fn reverse(&mut self)
        ensures
            final(self).op() == old(self).op(),
            final(self).operand_seq() == old(self).operand_seq().reverse(),
            final(self).cur() == old(self).cur(),
            old(self).wf() ==> final(self).wf(),
    {
        let mut reversed: Vec<T> = Vec::new();
        let len = self.operands.len();
        let mut i: usize = len;
        while i > 0
            invariant
                i <= len == self.operands.len(),
                reversed@ == self.operands@.subrange(i as int, len as int).reverse(),
            decreases i,
        {
            i = i - 1;
            reversed.push(self.operands[i]);
            assert(reversed@ =~= self.operands@.subrange(i as int, len as int).reverse());
        }
        assert(self.operands@.subrange(0, len as int) =~= self.operands@);
        self.operands = reversed;
    }

    /// Replaces all operands by the single value `result`, under addition, as
    /// evaluating the expression to `result` collapses it.
    pub fn collapse(&mut self, result: T)
        ensures
            final(self).wf(),
            final(self).op() == Operation::Addition,
            final(self).operand_seq() == seq![result],
            final(self).cur() == Some(0usize),
    {
        self.operation = Operation::Addition;
        self.operands.clear();
        self.operands.push(result);
        self.cur_operand = Some(0);
        assert(self.operands@ =~= seq![result]);
    }

    /// Sets the current operand to `new_val` and gives back its former value.
    pub fn replace_cur_operand(&mut self, new_val: T) -> (res: T)
        requires
            old(self).cur() matches Some(i) && i < old(self).operand_seq().len(),
        ensures
            final(self).wf(),
            final(self).op() == old(self).op(),
            final(self).cur() == old(self).cur(),
            res == old(self).operand_seq()[old(self).cur()->0 as int],
            final(self).operand_seq() == old(self).operand_seq().update(
                old(self).cur()->0 as int,
                new_val,
            ),
    {
        let i = self.cur_operand.unwrap();
        let old_val = self.operands[i];
        self.operands.set(i, new_val);
        old_val
    }

    /// Moves the current operand to the next one, wrapping round; without a
    /// current operand nothing moves.
    pub fn next_operand(&mut self) -> (res: Option<usize>)
        requires
            old(self).wf(),
            old(self).operand_seq().len() > 0,
            old(self).operand_seq().len() < usize::MAX,
        ensures
            final(self).op() == old(self).op(),
            final(self).operand_seq() == old(self).operand_seq(),
            final(self).wf(),
            res == final(self).cur(),
            old(self).cur() is None ==> res is None && *final(self) == *old(self),
            old(self).cur() matches Some(i) ==> res == Some(
                next_index(i as int, old(self).operand_seq().len() as int) as usize,
            ),
    {
        let op_idx = match self.cur_operand {
            Some(idx) => idx,
            None => {
                return None;
            },
        };
        let len = self.operands.len();
        assert((op_idx + 1) % (len as int) < len) by (nonlinear_arith)
            requires
                len > 0,
                op_idx + 1 >= 0,
        ;
        self.cur_operand = Some((op_idx + 1) % len);
        self.cur_operand
    }

    /// Moves the current operand to the previous one, wrapping round; without a
    /// current operand nothing moves.
    pub fn previous_operand(&mut self) -> (res: Option<usize>)
        requires
            old(self).operand_seq().len() > 0,
        ensures
            final(self).op() == old(self).op(),
            final(self).operand_seq() == old(self).operand_seq(),
            old(self).wf() ==> final(self).wf(),
            res == final(self).cur(),
            old(self).cur() is None ==> res is None && *final(self) == *old(self),
            old(self).cur() matches Some(i) ==> res == Some(
                previous_index(i as int, old(self).operand_seq().len() as int) as usize,
            ),
    {
        let id = match self.cur_operand {
            Some(id) => id,
            None => {
                return None;
            },
        };
        self.cur_operand = Some(
            if id == 0 {
                self.operands.len() - 1
            } else {
                id - 1
            },
        );
        self.cur_operand
    }

    /// Makes the last operand the current one, if there is a current operand.
    pub fn cur_operand_to_last(&mut self)
        requires
            old(self).cur() is Some ==> old(self).operand_seq().len() > 0,
        ensures
            final(self).wf(),
            final(self).op() == old(self).op(),
            final(self).operand_seq() == old(self).operand_seq(),
            old(self).cur() is None ==> final(self).cur() is None,
            old(self).cur() is Some ==> final(self).cur() == Some(
                (old(self).operand_seq().len() - 1) as usize,
            ),
    {
        if self.cur_operand.is_none() {
            return;
        }
        self.cur_operand = Some(self.operands.len() - 1);
    }

    /// A sum whose only operand is the current operand of this expression.
    pub fn new_from_cur_operand(&self) -> (res: Option<FoldExpr<T>>)
        requires
            self.cur() matches Some(i) ==> i < self.operand_seq().len(),
        ensures
            self.cur() is None ==> res is None,
            self.cur() matches Some(i) ==> res matches Some(e) && e.op()
                == Operation::Addition && e.operand_seq() == seq![self.operand_seq()[i as int]]
                && e.cur() == Some(0usize),
    {
        let cur_op = match self.cur_operand {
            Some(i) => i,
            None => {
                return None;
            },
        };
        let mut operands: Vec<T> = Vec::new();
        operands.push(self.operands[cur_op]);
        assert(operands@ =~= seq![self.operands@[cur_op as int]]);
        Some(FoldExpr { operation: Operation::Addition, operands, cur_operand: Some(0) })
    }
}

} // verus!
