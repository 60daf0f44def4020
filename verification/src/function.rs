//! Function definitions: an operator followed by terms of the form
//! `coefficient'variable`, for example `/ 5.' 1'x.i 2.1'!n`. A term without a
//! variable is a constant; a variable without a coefficient has coefficient 1.

use vstd::prelude::*;
use crate::decimal::{Decimal, DecimalView, all_digits};
use crate::lexical::{char_views, insert_sorted, strictly_sorted};
use crate::operation::{Operation, OperationExecutionError, ParseOperationError, operation_of_char};
use crate::text::{
    chars_to_string, is_whitespace, spec_digit_value, spec_is_digit, spec_is_whitespace,
    to_digit, trim_bounds, trim_ws, all_whitespace, lemma_trim_ws_padding, all_digit_chars,
    digit_values, lemma_digit_values_push, lemma_trim_ws_unpadded,
};

verus! {

/// The character that separates a term's coefficient from its variable.
pub const COEFF_DELIM: char = '\'';

/// A term of a function: a coefficient, multiplied by a variable if it names one.
#[derive(Clone, Debug, PartialEq, Eq)]
pub struct Term {
    pub var_name: Option<String>,
    pub coeff: Decimal,
}

/// The mathematical content of a [`Term`].
pub struct TermView {
    pub var_name: Option<Seq<char>>,
    pub coeff: DecimalView,
}

impl View for Term {
    type V = TermView;

    open spec fn view(&self) -> TermView {
        TermView {
            var_name: match self.var_name {
                Some(s) => Some(s@),
                None => None,
            },
            coeff: self.coeff@,
        }
    }
}

/// The views of a list of terms.
pub open spec fn term_views(v: Seq<Term>) -> Seq<TermView> {
    v.map_values(|t: Term| t@)
}

/// The views of a list of strings.
pub open spec fn string_views(v: Seq<String>) -> Seq<Seq<char>> {
    v.map_values(|s: String| s@)
}

/// Why a function could not be read or evaluated.
#[derive(Clone, Copy, Debug, PartialEq, Eq, Structural)]
pub enum FunctionError {
    ArgumentMismatch,
    OperationError(OperationExecutionError),
    /// A character refused at a position counted from the operator, which is
    /// position 0.
    ParseError(usize, char),
    ParseOperationError(ParseOperationError),
}

impl From<OperationExecutionError> for FunctionError {
    fn from(err: OperationExecutionError) -> (res: FunctionError) {
        FunctionError::OperationError(err)
    }
}

impl vstd::std_specs::convert::FromSpecImpl<OperationExecutionError> for FunctionError {
    open spec fn obeys_from_spec() -> bool {
        true
    }

    open spec fn from_spec(err: OperationExecutionError) -> FunctionError {
        FunctionError::OperationError(err)
    }
}

impl From<ParseOperationError> for FunctionError {
    fn from(err: ParseOperationError) -> (res: FunctionError) {
        FunctionError::ParseOperationError(err)
    }
}

impl vstd::std_specs::convert::FromSpecImpl<ParseOperationError> for FunctionError {
    open spec fn obeys_from_spec() -> bool {
        true
    }

    open spec fn from_spec(err: ParseOperationError) -> FunctionError {
        FunctionError::ParseOperationError(err)
    }
}

/// The state of the term scanner between two characters.
pub struct FuncScan {
    /// The variable names met so far, in order, with repetitions.
    pub params: Seq<Seq<char>>,
    /// The terms completed so far.
    pub terms: Seq<TermView>,
    /// The variable name of the term being read.
    pub var: Seq<char>,
    /// The coefficient's digits of the term being read.
    pub digits: Seq<u8>,
    /// How many of those digits stand after a decimal point.
    pub scale: nat,
    pub in_num: bool,
    pub already_float: bool,
    pub already_delim: bool,
    pub negative: bool,
}

pub open spec fn func_scan_start() -> FuncScan {
    FuncScan {
        params: seq![],
        terms: seq![],
        var: seq![],
        digits: seq![],
        scale: 0,
        in_num: false,
        already_float: false,
        already_delim: false,
        negative: false,
    }
}

/// The term being read.
pub open spec fn func_scan_term(s: FuncScan) -> TermView {
    TermView {
        var_name: if s.var.len() == 0 { None } else { Some(s.var) },
        coeff: DecimalView { negative: s.negative, digits: s.digits, scale: s.scale },
    }
}

/// Completes the term being read, and records its variable.
pub open spec fn func_scan_flush(s: FuncScan) -> FuncScan {
    FuncScan {
        params: if s.already_delim && s.var.len() > 0 { s.params.push(s.var) } else { s.params },
        terms: s.terms.push(func_scan_term(s)),
        ..func_scan_start()
    }
}

/// One step of the scanner on the character `ch` at position `idx`. White space
/// ends a term that has a coefficient or a delimiter; after the delimiter every
/// other character belongs to the variable's name; a delimiter without digits
/// before it gives the coefficient 1.
pub open spec fn func_scan_step(s: FuncScan, ch: char, idx: usize) -> Result<FuncScan, FunctionError> {
    if spec_is_whitespace(ch) {
        if !s.in_num && !s.already_delim {
            Ok(s)
        } else {
            Ok(func_scan_flush(s))
        }
    } else if ch == COEFF_DELIM {
        if s.already_delim {
            Err(FunctionError::ParseError(idx, COEFF_DELIM))
        } else {
            Ok(
                FuncScan {
                    digits: if s.in_num { s.digits } else { seq![1u8] },
                    already_delim: true,
                    ..s
                },
            )
        }
    } else if s.already_delim {
        Ok(FuncScan { var: s.var.push(ch), ..s })
    } else if ch == '.' {
        if s.already_float {
            Err(FunctionError::ParseError(idx, '.'))
        } else {
            Ok(FuncScan { already_float: true, ..s })
        }
    } else if ch == '-' && !s.negative {
        Ok(FuncScan { negative: true, ..s })
    } else if spec_is_digit(ch) {
        Ok(
            FuncScan {
                digits: s.digits.push(spec_digit_value(ch)),
                scale: if s.already_float { s.scale + 1 } else { s.scale },
                in_num: true,
                ..s
            },
        )
    } else {
        Err(FunctionError::ParseError(idx, ch))
    }
}

/// The scanner run over the characters that follow the operator; the first of
/// them is at position 1.
pub open spec fn func_scan(chars: Seq<char>) -> Result<FuncScan, FunctionError>
    decreases chars.len(),
{
    if chars.len() == 0 {
        Ok(func_scan_start())
    } else {
        match func_scan(chars.drop_last()) {
            Ok(s) => func_scan_step(s, chars.last(), chars.len() as usize),
            Err(e) => Err(e),
        }
    }
}

/// At the end of the text a term is completed if it has a coefficient or a
/// delimiter; otherwise what was read of it is dropped.
pub open spec fn func_scan_finish(s: FuncScan) -> FuncScan {
    if !s.in_num && !s.already_delim {
        s
    } else {
        func_scan_flush(s)
    }
}

/// What reading a function's text yields: the set of its variable names, its
/// operation and its terms.
pub open spec fn function_parse_spec(slice: Seq<char>) -> Result<
    (Set<Seq<char>>, Operation, Seq<TermView>),
    FunctionError,
> {
    let t = trim_ws(slice);
    if t.len() == 0 {
        Err(FunctionError::ParseError(0, ' '))
    } else {
        match operation_of_char(t[0]) {
            None => Err(
                FunctionError::ParseOperationError(ParseOperationError::InvalidCharacter(t[0])),
            ),
            Some(op) => match func_scan(t.drop_first()) {
                Err(e) => Err(e),
                Ok(s) => {
                    let f = func_scan_finish(s);
                    Ok((f.params.to_set(), op, f.terms))
                },
            },
        }
    }
}

/// The scanner stands between terms: nothing of a next term has been read.
pub open spec fn func_scan_between(s: FuncScan) -> bool {
    &&& !s.in_num
    &&& !s.already_delim
    &&& !s.already_float
    &&& !s.negative
    &&& s.digits.len() == 0
    &&& s.scale == 0
    &&& s.var.len() == 0
}

/// A variable name as a term can carry it: no white space and no delimiter.
pub open spec fn plain_name(v: Seq<char>) -> bool {
    forall|i: int| 0 <= i < v.len() ==> !spec_is_whitespace(#[trigger] v[i]) && v[i] != COEFF_DELIM
}

proof fn lemma_func_scan_push(p: Seq<char>, x: char)
    ensures
        func_scan(p.push(x)) == match func_scan(p) {
            Ok(s) => func_scan_step(s, x, (p.len() + 1) as usize),
            Err(e) => Err(e),
        },
{
    assert(p.push(x).drop_last() =~= p);
}

/// Before the delimiter, a run of digits appends their values to the
/// coefficient, and after a point each adds one decimal place.
proof fn lemma_func_scan_digits(p: Seq<char>, ds: Seq<char>)
    requires
        func_scan(p) matches Ok(s) && !s.already_delim,
        all_digit_chars(ds),
    ensures
        ({
            let s = func_scan(p)->Ok_0;
            func_scan(p + ds) matches Ok(t) && t == FuncScan {
                digits: s.digits + digit_values(ds),
                scale: s.scale + (if s.already_float {
                    ds.len()
                } else {
                    0
                }),
                in_num: s.in_num || ds.len() > 0,
                ..s
            }
        }),
    decreases ds.len(),
{
    let s = func_scan(p)->Ok_0;
    if ds.len() == 0 {
        assert(p + ds =~= p);
        assert(s.digits + digit_values(ds) =~= s.digits);
    } else {
        let q = ds.drop_last();
        let x = ds.last();
        assert(spec_is_digit(ds[ds.len() - 1]));
        lemma_func_scan_digits(p, q);
        assert(p + ds =~= (p + q).push(x));
        lemma_func_scan_push(p + q, x);
        assert(q.push(x) =~= ds);
        lemma_digit_values_push(q, x);
        assert(s.digits + digit_values(ds) =~= (s.digits + digit_values(q)).push(
            spec_digit_value(x),
        ));
    }
}

/// After the delimiter, every character other than white space and the
/// delimiter is appended to the variable's name.
proof fn lemma_func_scan_name(p: Seq<char>, v: Seq<char>)
    requires
        func_scan(p) matches Ok(s) && s.already_delim,
        plain_name(v),
    ensures
        ({
            let s = func_scan(p)->Ok_0;
            func_scan(p + v) matches Ok(t) && t == FuncScan { var: s.var + v, ..s }
        }),
    decreases v.len(),
{
    let s = func_scan(p)->Ok_0;
    if v.len() == 0 {
        assert(p + v =~= p);
        assert(s.var + v =~= s.var);
    } else {
        let q = v.drop_last();
        let x = v.last();
        assert(!spec_is_whitespace(v[v.len() - 1]) && v[v.len() - 1] != COEFF_DELIM);
        assert forall|i: int| 0 <= i < q.len() implies !spec_is_whitespace(#[trigger] q[i])
            && q[i] != COEFF_DELIM by {
            assert(q[i] == v[i]);
        }
        lemma_func_scan_name(p, q);
        assert(p + v =~= (p + q).push(x));
        lemma_func_scan_push(p + q, x);
        assert(s.var + v =~= (s.var + q).push(x));
    }
}

/// A term typed as the digits `ds`, a point, the digits `fs`, the delimiter and
/// the name `v`, read after white space from between terms.
proof fn lemma_func_scan_term(p: Seq<char>, ds: Seq<char>, fs: Seq<char>, v: Seq<char>)
    requires
        func_scan(p) matches Ok(s) && func_scan_between(s),
        all_digit_chars(ds),
        all_digit_chars(fs),
        ds.len() + fs.len() > 0,
        plain_name(v),
    ensures
        ({
            let s = func_scan(p)->Ok_0;
            func_scan(p + seq![' '] + ds + seq!['.'] + fs + seq![COEFF_DELIM] + v) matches Ok(t)
                && t.terms == s.terms && t.params == s.params && t.already_delim && t.var == v
                && !t.negative && t.digits == digit_values(ds) + digit_values(fs) && t.scale
                == fs.len()
        }),
{
    let s = func_scan(p)->Ok_0;
    let p1 = p.push(' ');
    lemma_func_scan_push(p, ' ');
    lemma_func_scan_digits(p1, ds);
    let p2 = p1 + ds;
    let p3 = p2.push('.');
    lemma_func_scan_push(p2, '.');
    lemma_func_scan_digits(p3, fs);
    let p4 = p3 + fs;
    let p5 = p4.push(COEFF_DELIM);
    lemma_func_scan_push(p4, COEFF_DELIM);
    lemma_func_scan_name(p5, v);
    assert(p + seq![' '] + ds + seq!['.'] + fs + seq![COEFF_DELIM] + v =~= p5 + v);
    assert(s.digits + digit_values(ds) =~= digit_values(ds));
    assert(Seq::<char>::empty() + v =~= v);
}

/// After a complete term, a space, a coefficient typed as the digits `ds`, a
/// point and the digits `fs`, the delimiter, a variable name `v` and a space add
/// exactly one term: the name `v` (none if it is empty) with the coefficient
/// whose digits are those of `ds` and `fs` and whose decimal places are the
/// digits of `fs`. A non-empty name is recorded as a parameter.
pub proof fn lemma_scan_reads_term(p: Seq<char>, ds: Seq<char>, fs: Seq<char>, v: Seq<char>)
    requires
        func_scan(p) matches Ok(s) && func_scan_between(s),
        all_digit_chars(ds),
        all_digit_chars(fs),
        ds.len() + fs.len() > 0,
        plain_name(v),
    ensures
        ({
            let s = func_scan(p)->Ok_0;
            func_scan(p + seq![' '] + ds + seq!['.'] + fs + seq![COEFF_DELIM] + v + seq![' '])
                matches Ok(t) && func_scan_between(t) && t.terms == s.terms.push(
                TermView {
                    var_name: if v.len() == 0 {
                        None
                    } else {
                        Some(v)
                    },
                    coeff: DecimalView {
                        negative: false,
                        digits: digit_values(ds) + digit_values(fs),
                        scale: fs.len(),
                    },
                },
            ) && t.params == if v.len() == 0 {
                s.params
            } else {
                s.params.push(v)
            }
        }),
{
    let q = p + seq![' '] + ds + seq!['.'] + fs + seq![COEFF_DELIM] + v;
    lemma_func_scan_term(p, ds, fs, v);
    lemma_func_scan_push(q, ' ');
    assert(q + seq![' '] =~= q.push(' '));
}

/// An operator, a space and a term typed as the digits `ds`, a point, the
/// digits `fs`, the delimiter and the name `v` read as that operation with the
/// single term named `v` (none if empty) whose coefficient has the digits of
/// `ds` and `fs` and as many decimal places as `fs` has digits.
pub proof fn lemma_parse_reads_term(op_ch: char, ds: Seq<char>, fs: Seq<char>, v: Seq<char>)
    requires
        operation_of_char(op_ch) is Some,
        all_digit_chars(ds),
        all_digit_chars(fs),
        ds.len() + fs.len() > 0,
        plain_name(v),
    ensures
        function_parse_spec(seq![op_ch, ' '] + ds + seq!['.'] + fs + seq![COEFF_DELIM] + v)
            matches Ok((_, op, terms)) && Some(op) == operation_of_char(op_ch) && terms == seq![
            TermView {
                var_name: if v.len() == 0 {
                    None
                } else {
                    Some(v)
                },
                coeff: DecimalView {
                    negative: false,
                    digits: digit_values(ds) + digit_values(fs),
                    scale: fs.len(),
                },
            },
        ],
{
    let text = seq![op_ch, ' '] + ds + seq!['.'] + fs + seq![COEFF_DELIM] + v;
    let e = Seq::<char>::empty();
    assert(text[0] == op_ch);
    if v.len() > 0 {
        assert(text.last() == v.last());
        assert(!spec_is_whitespace(v[v.len() - 1]));
    } else {
        assert(text.last() == COEFF_DELIM);
    }
    lemma_trim_ws_unpadded(text);
    assert(text.drop_first() =~= e + seq![' '] + ds + seq!['.'] + fs + seq![COEFF_DELIM] + v);
    assert(func_scan(e) == Ok::<FuncScan, FunctionError>(func_scan_start()));
    lemma_func_scan_term(e, ds, fs, v);
}

/// The names of the variables that the terms use.
pub open spec fn term_vars(terms: Seq<TermView>) -> Set<Seq<char>> {
    Set::new(|n: Seq<char>| exists|i: int| 0 <= i < terms.len() && terms[i].var_name == Some(n))
}

/// What the scanner keeps true: the variable names recorded are those of the
/// completed terms, and a variable name is only read after the delimiter.
pub open spec fn func_scan_inv(s: FuncScan) -> bool {
    &&& s.params.to_set() == term_vars(s.terms)
    &&& s.var.len() > 0 ==> s.already_delim
}

proof fn lemma_flush_keeps_inv(s: FuncScan)
    requires
        func_scan_inv(s),
    ensures
        func_scan_inv(func_scan_flush(s)),
{
    let f = func_scan_flush(s);
    let t = func_scan_term(s);
    assert(f.terms == s.terms.push(t));
    assert forall|n: Seq<char>| term_vars(f.terms).contains(n) <==> (term_vars(s.terms).contains(n)
        || t.var_name == Some(n)) by {
        if term_vars(f.terms).contains(n) {
            let i = choose|i: int| 0 <= i < f.terms.len() && f.terms[i].var_name == Some(n);
            if i < s.terms.len() {
                assert(f.terms[i] == s.terms[i]);
            }
        }
        if term_vars(s.terms).contains(n) {
            let i = choose|i: int| 0 <= i < s.terms.len() && s.terms[i].var_name == Some(n);
            assert(f.terms[i] == s.terms[i]);
        }
        if t.var_name == Some(n) {
            assert(f.terms[s.terms.len() as int] == t);
        }
    }
    if s.already_delim && s.var.len() > 0 {
        s.params.lemma_push_to_set_commute(s.var);
        assert(f.params.to_set() =~= term_vars(f.terms));
    } else {
        assert(f.params.to_set() =~= term_vars(f.terms));
    }
}

proof fn lemma_func_scan_inv(chars: Seq<char>)
    ensures
        func_scan(chars) matches Ok(s) ==> func_scan_inv(s),
    decreases chars.len(),
{
    if chars.len() == 0 {
        assert(func_scan_start().params.to_set() =~= term_vars(func_scan_start().terms));
    } else {
        lemma_func_scan_inv(chars.drop_last());
        if let Ok(s) = func_scan(chars.drop_last()) {
            let ch = chars.last();
            if spec_is_whitespace(ch) && (s.in_num || s.already_delim) {
                lemma_flush_keeps_inv(s);
            }
        }
    }
}

/// A function's parameters are exactly the variables that its terms use.
pub proof fn lemma_params_are_term_vars(slice: Seq<char>)
    ensures
        function_parse_spec(slice) matches Ok((params, _, terms)) ==> params == term_vars(terms),
{
    let t = trim_ws(slice);
    if t.len() > 0 {
        lemma_func_scan_inv(t.drop_first());
        if let Ok(s) = func_scan(t.drop_first()) {
            if s.in_num || s.already_delim {
                lemma_flush_keeps_inv(s);
            }
        }
    }
}

/// White space before and after a function's text does not change what is read.
pub proof fn lemma_parse_ignores_padding(a: Seq<char>, s: Seq<char>, b: Seq<char>)
    requires
        all_whitespace(a),
        all_whitespace(b),
    ensures
        function_parse_spec(a + s + b) == function_parse_spec(s),
{
    lemma_trim_ws_padding(a, s, b);
}

/// A function as read from text: its variable names in lexicographic order
/// without repetitions, its operation and its terms.
pub struct ParsedFunction {
    pub params: Vec<String>,
    pub operation: Operation,
    pub operands: Vec<Term>,
}

/// Once the scanner refuses a prefix, it refuses the whole text with the same error.
proof fn lemma_func_scan_error_extends(chars: Seq<char>, n: int)
    requires
        0 <= n <= chars.len(),
        func_scan(chars.take(n)) is Err,
    ensures
        func_scan(chars) == func_scan(chars.take(n)),
    decreases chars.len(),
{
    if n < chars.len() {
        assert(chars.drop_last().take(n) =~= chars.take(n));
        lemma_func_scan_error_extends(chars.drop_last(), n);
    } else {
        assert(chars.take(n) =~= chars);
    }
}

proof fn lemma_term_views_push(v: Seq<Term>, t: Term)
    ensures
        term_views(v.push(t)) == term_views(v).push(t@),
{
    assert(term_views(v.push(t)) =~= term_views(v).push(t@));
}

/// The term with the given parts.
fn make_term(var: &Vec<char>, negative: bool, digits: Vec<u8>, scale: usize) -> (res: Term)
    ensures
        res@ == (TermView {
            var_name: if var@.len() == 0 { None } else { Some(var@) },
            coeff: DecimalView { negative, digits: digits@, scale: scale as nat },
        }),
{
    let var_name = if var.len() == 0 {
        None
    } else {
        Some(chars_to_string(var.as_slice()))
    };
    Term { var_name, coeff: Decimal { negative, digits, scale } }
}

/// The scanner's outcome for the text between `start` (the operator) and `end`:
/// the variable names as a strictly sorted list, and the terms.
fn scan_terms(slice: &[char], start: usize, end: usize) -> (res: Result<
    (Vec<Vec<char>>, Vec<Term>),
    FunctionError,
>)
    requires
        start < end <= slice.len(),
    ensures
        ({
            let body = slice@.subrange(start + 1, end as int);
            match func_scan(body) {
                Ok(s) => res matches Ok(r) && strictly_sorted(char_views(r.0@)) && char_views(
                    r.0@,
                ).to_set() == func_scan_finish(s).params.to_set() && term_views(r.1@)
                    == func_scan_finish(s).terms,
                Err(e) => res == Err::<(Vec<Vec<char>>, Vec<Term>), FunctionError>(e),
            }
        }),
{
    let ghost body = slice@.subrange(start + 1, end as int);
    let ghost mut params_seen: Seq<Seq<char>> = seq![];
    let mut params: Vec<Vec<char>> = Vec::new();
    let mut terms: Vec<Term> = Vec::new();
    let mut var: Vec<char> = Vec::new();
    let mut digits: Vec<u8> = Vec::new();
    let mut scale: usize = 0;
    let mut in_num = false;
    let mut already_float = false;
    let mut already_delim = false;
    let mut negative = false;
    let mut k: usize = start + 1;
    assert(body.take(0) =~= Seq::<char>::empty());
    assert(term_views(terms@) =~= Seq::<TermView>::empty());
    assert(char_views(params@) =~= Seq::<Seq<char>>::empty());
    assert(char_views(params@).to_set() =~= params_seen.to_set());
    while k < end
        invariant
            start < end <= slice.len(),
            start + 1 <= k <= end,
            body == slice@.subrange(start + 1, end as int),
            func_scan(body.take(k - start - 1)) == Ok::<FuncScan, FunctionError>(
                FuncScan {
                    params: params_seen,
                    terms: term_views(terms@),
                    var: var@,
                    digits: digits@,
                    scale: scale as nat,
                    in_num,
                    already_float,
                    already_delim,
                    negative,
                },
            ),
            strictly_sorted(char_views(params@)),
            char_views(params@).to_set() == params_seen.to_set(),
            scale <= digits.len() <= k,
            !in_num && !already_delim ==> digits@ == Seq::<u8>::empty() && scale == 0,
            !in_num && already_delim ==> digits@ == seq![1u8] && scale == 0,
            var.len() > 0 ==> already_delim,
        decreases end - k,
    {
        let ch = slice[k];
        let idx = k - start;
        assert(body.take(idx as int).drop_last() =~= body.take(idx - 1));
        assert(body.take(idx as int).last() == ch);
        if is_whitespace(ch) {
            if in_num || already_delim {
                if already_delim && var.len() > 0 {
                    let name = crate::lexical::copy_chars(var.as_slice());
                    insert_sorted(&mut params, name);
                    proof {
                        assert(params_seen.push(var@).to_set() =~= params_seen.to_set().insert(
                            var@,
                        )) by {
                            params_seen.lemma_push_to_set_commute(var@);
                        }
                        params_seen = params_seen.push(var@);
                    }
                }
                let term = make_term(&var, negative, digits, scale);
                proof {
                    lemma_term_views_push(terms@, term);
                }
                terms.push(term);
                var = Vec::new();
                digits = Vec::new();
                scale = 0;
                in_num = false;
                already_float = false;
                already_delim = false;
                negative = false;
                assert(var@ =~= Seq::<char>::empty());
                assert(digits@ =~= Seq::<u8>::empty());
            }
        } else if ch == COEFF_DELIM {
            if already_delim {
                proof {
                    lemma_func_scan_error_extends(body, idx as int);
                }
                return Err(FunctionError::ParseError(idx, COEFF_DELIM));
            }
            if !in_num {
                digits = Vec::new();
                digits.push(1u8);
                scale = 0;
                assert(digits@ =~= seq![1u8]);
            }
            already_delim = true;
        } else if already_delim {
            var.push(ch);
        } else if ch == '.' {
            if already_float {
                proof {
                    lemma_func_scan_error_extends(body, idx as int);
                }
                return Err(FunctionError::ParseError(idx, '.'));
            }
            already_float = true;
        } else if ch == '-' && !negative {
            negative = true;
        } else {
            match to_digit(ch) {
                Some(d) => {
                    digits.push(d);
                    if already_float {
                        scale = scale + 1;
                    }
                    in_num = true;
                },
                None => {
                    proof {
                        lemma_func_scan_error_extends(body, idx as int);
                    }
                    return Err(FunctionError::ParseError(idx, ch));
                },
            }
        }
        k = k + 1;
    }
    assert(body.take(k - start - 1) =~= body);
    if in_num || already_delim {
        if var.len() > 0 {
            let name = crate::lexical::copy_chars(var.as_slice());
            insert_sorted(&mut params, name);
            proof {
                params_seen.lemma_push_to_set_commute(var@);
                params_seen = params_seen.push(var@);
            }
        }
        let term = make_term(&var, negative, digits, scale);
        proof {
            lemma_term_views_push(terms@, term);
        }
        terms.push(term);
    }
    Ok((params, terms))
}

/// Reads a function from its text.
pub fn parse(slice: &[char]) -> (res: Result<ParsedFunction, FunctionError>)
    ensures
        res matches Ok(p) ==> function_parse_spec(slice@) == Ok::<
            (Set<Seq<char>>, Operation, Seq<TermView>),
            FunctionError,
        >((string_views(p.params@).to_set(), p.operation, term_views(p.operands@))),
        res matches Ok(p) ==> strictly_sorted(string_views(p.params@)),
        res matches Ok(p) ==> vars_are_params(string_views(p.params@), term_views(p.operands@)),
        res matches Err(e) ==> function_parse_spec(slice@) == Err::<
            (Set<Seq<char>>, Operation, Seq<TermView>),
            FunctionError,
        >(e),
{
    let (start, end) = trim_bounds(slice);
    let ghost t = slice@.subrange(start as int, end as int);
    if start == end {
        return Err(FunctionError::ParseError(0, ' '));
    }
    assert(t[0] == slice@[start as int]);
    let operation = match Operation::try_from_char(slice[start]) {
        Ok(op) => op,
        Err(e) => {
            return Err(FunctionError::ParseOperationError(e));
        },
    };
    assert(t.drop_first() =~= slice@.subrange(start + 1, end as int));
    match scan_terms(slice, start, end) {
        Err(e) => Err(e),
        Ok((names, operands)) => {
            let mut params: Vec<String> = Vec::new();
            let mut i: usize = 0;
            while i < names.len()
                invariant
                    i <= names.len(),
                    string_views(params@) == char_views(names@).take(i as int),
                decreases names.len() - i,
            {
                let ghost before = params@;
                let s = chars_to_string(names[i].as_slice());
                params.push(s);
                assert(params@ == before.push(s));
                assert(string_views(params@) =~= string_views(before).push(s@));
                assert(char_views(names@).take(i + 1) =~= char_views(names@).take(i as int).push(
                    names@[i as int]@,
                ));
                i = i + 1;
            }
            assert(char_views(names@).take(i as int) =~= char_views(names@));
            proof {
                lemma_params_are_term_vars(slice@);
                let pv = string_views(params@);
                let tv = term_views(operands@);
                assert forall|k: int| 0 <= k < tv.len() implies (#[trigger] tv[k].var_name matches Some(
                    n,
                ) ==> pv.contains(n)) by {
                    if let Some(n) = tv[k].var_name {
                        assert(term_vars(tv).contains(n));
                        assert(pv.to_set().contains(n));
                    }
                }
            }
            Ok(ParsedFunction { params, operation, operands })
        },
    }
}

/// Whether every variable that the terms use is among the parameters.
pub open spec fn vars_are_params(params: Seq<Seq<char>>, terms: Seq<TermView>) -> bool {
    forall|i: int|
        0 <= i < terms.len() ==> (#[trigger] terms[i].var_name matches Some(n) ==> params.contains(n))
}

/// The first index at which `params` holds `name`.
pub open spec fn first_position(params: Seq<Seq<char>>, name: Seq<char>, k: int) -> bool {
    &&& 0 <= k < params.len()
    &&& params[k] == name
    &&& forall|j: int| 0 <= j < k ==> params[j] != name
}

/// Where each term finds its argument when a function is applied to
/// `arg_count` arguments: for a term with a variable, the first index of that
/// variable among the parameters; `None` for a constant term. Refused when the
/// number of arguments differs from the number of parameters.
pub fn bind_arguments(params: &Vec<String>, operands: &Vec<Term>, arg_count: usize) -> (res: Result<
    Vec<Option<usize>>,
    FunctionError,
>)
    requires
        vars_are_params(string_views(params@), term_views(operands@)),
    ensures
        arg_count != params.len() <==> res == Err::<Vec<Option<usize>>, FunctionError>(
            FunctionError::ArgumentMismatch,
        ),
        res matches Ok(slots) ==> slots.len() == operands.len() && forall|i: int|
            0 <= i < operands.len() ==> match (#[trigger] operands@[i]).var_name {
                None => slots@[i] is None,
                Some(n) => slots@[i] matches Some(k) && first_position(
                    string_views(params@),
                    n@,
                    k as int,
                ),
            },
{
    if arg_count != params.len() {
        return Err(FunctionError::ArgumentMismatch);
    }
    let mut slots: Vec<Option<usize>> = Vec::new();
    let mut i: usize = 0;
    while i < operands.len()
        invariant
            i <= operands.len(),
            slots.len() == i,
            vars_are_params(string_views(params@), term_views(operands@)),
            forall|t: int|
                0 <= t < i ==> match (#[trigger] operands@[t]).var_name {
                    None => slots@[t] is None,
                    Some(n) => slots@[t] matches Some(k) && first_position(
                        string_views(params@),
                        n@,
                        k as int,
                    ),
                },
        decreases operands.len() - i,
    {
        let slot = match &operands[i].var_name {
            None => None,
            Some(name) => {
                assert(term_views(operands@)[i as int].var_name == Some(name@));
                let mut k: usize = 0;
                while k < params.len() && !(params[k] == *name)
                    invariant
                        k <= params.len(),
                        string_views(params@).contains(name@),
                        forall|j: int| 0 <= j < k ==> params@[j]@ != name@,
                    decreases params.len() - k,
                {
                    k = k + 1;
                }
                if k == params.len() {
                    proof {
                        let j = choose|j: int|
                            0 <= j < string_views(params@).len() && string_views(params@)[j]
                                == name@;
                        assert(params@[j]@ == name@);
                    }
                }
                assert(string_views(params@)[k as int] == params@[k as int]@);
                assert forall|j: int| 0 <= j < k implies string_views(params@)[j] != name@ by {
                    assert(string_views(params@)[j] == params@[j]@);
                }
                Some(k)
            },
        };
        slots.push(slot);
        i = i + 1;
    }
    Ok(slots)
}

} // verus!
