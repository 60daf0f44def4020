use fcalc::decimal::Decimal;
use fcalc::fold_expr::{parse, FoldExpr, FoldExprError, ParseFoldExprError};
use fcalc::fold_expression::{FoldExpression, ParseFoldExpressionError};
use fcalc::operation::{Operation, OperationExecutionError, ParseOperationError};

fn to_f64(d: &Decimal) -> f64 {
    let mut cur = 0.0f64;
    for digit in &d.digits {
        cur = cur * 10.0 + *digit as f64;
    }
    let mut comp_div = 1.0f64;
    for _ in 0..d.scale {
        comp_div *= 10.0;
    }
    if d.negative {
        -cur / comp_div
    } else {
        cur / comp_div
    }
}

fn chars(s: &str) -> Vec<char> {
    s.chars().collect()
}

fn values(ds: &[Decimal]) -> Vec<f64> {
    ds.iter().map(to_f64).collect()
}

#[test]
fn fold_parse_reads_operands() {
    let p = parse(&chars("  * 1 2.5 -3  "), 0).unwrap();
    assert_eq!(p.operation, Operation::Multiplication);
    assert_eq!(values(&p.operands), vec![1.0, 2.5, -3.0]);
    assert_eq!(p.cur_operand, None);
}

#[test]
fn fold_parse_sum_drops_zeros() {
    let p = parse(&chars("+ 1 0 2"), 0).unwrap();
    assert_eq!(values(&p.operands), vec![1.0, 2.0]);
}

#[test]
fn fold_parse_sum_of_zeros_keeps_first() {
    let p = parse(&chars("+ -0 0 0.0"), 0).unwrap();
    assert_eq!(p.operands.len(), 1);
    assert!(p.operands[0].negative);
    assert_eq!(to_f64(&p.operands[0]), 0.0);
}

#[test]
fn fold_parse_product_keeps_zeros() {
    let p = parse(&chars("* 0 0"), 0).unwrap();
    assert_eq!(values(&p.operands), vec![0.0, 0.0]);
}

#[test]
fn fold_parse_marks_operand_under_cursor() {
    let p = parse(&chars("+ 12 34"), 5).unwrap();
    assert_eq!(p.cur_operand, Some(1));
    let q = parse(&chars("+ 12 34"), 4).unwrap();
    assert_eq!(q.cur_operand, None);
}

#[test]
fn fold_parse_cursor_moves_onto_kept_operand() {
    let p = parse(&chars("+ 0 5 0"), 6).unwrap();
    assert_eq!(values(&p.operands), vec![5.0]);
    assert_eq!(p.cur_operand, Some(0));
}

#[test]
fn fold_parse_sign_and_point_anywhere_once() {
    let p = parse(&chars("- - 5 1-2 .5"), 0).unwrap();
    assert_eq!(values(&p.operands), vec![-5.0, -12.0, 0.5]);
}

#[test]
fn fold_parse_errors() {
    assert_eq!(
        parse(&chars("   "), 0).err(),
        Some(FoldExprError::ParseError(ParseFoldExprError::OperationError(
            ParseOperationError::EmptyInput
        )))
    );
    assert_eq!(
        parse(&chars("x 1"), 0).err(),
        Some(FoldExprError::ParseError(ParseFoldExprError::OperationError(
            ParseOperationError::InvalidCharacter('x')
        )))
    );
    assert_eq!(
        parse(&chars("+ 1a"), 0).err(),
        Some(FoldExprError::ParseError(ParseFoldExprError::InvalidCharacter('a', 3)))
    );
    assert_eq!(
        parse(&chars("+ 1.2.3"), 0).err(),
        Some(FoldExprError::ParseError(ParseFoldExprError::InvalidCharacter('.', 5)))
    );
}

#[test]
fn fold_error_messages() {
    let e = ParseFoldExprError::InvalidCharacter('a', 13);
    assert_eq!(
        e.message(),
        "Parsing of fold expression failed due to invalid character 'a' appearing at position 13 after the operator (the operator itself marks position 0)"
    );
    let f = FoldExprError::ParseError(ParseFoldExprError::OperationError(
        ParseOperationError::EmptyInput,
    ));
    assert_eq!(
        f.message(),
        "Error parsing `FoldExpr`: Parsing of fold expression failed at operation parsing step: No operands provided!"
    );
    assert_eq!(FoldExprError::from(e), FoldExprError::ParseError(e));
}

#[test]
fn fold_expression_first_form_skips_first_and_last() {
    let e = FoldExpression::try_from_chars(&chars("+ 1 2 3")).unwrap();
    assert_eq!(e.operation, Operation::Addition);
    assert_eq!(values(&e.operands), vec![2.0]);
    let f = FoldExpression::try_from_chars(&chars("^ 1.5 2 ")).unwrap();
    assert!(f.operands.is_empty());
}

#[test]
fn fold_expression_first_form_errors() {
    assert_eq!(
        FoldExpression::try_from_chars(&chars("+ -1")).err(),
        Some(ParseFoldExpressionError::InvalidCharacter('-'))
    );
    assert_eq!(
        FoldExpression::try_from_chars(&chars("")).err(),
        Some(ParseFoldExpressionError::OperationError(ParseOperationError::EmptyInput))
    );
    assert_eq!(
        ParseFoldExpressionError::InvalidCharacter('-').message(),
        "Parsing of fold expression failed due to following character: -"
    );
}

#[test]
fn fold_expr_navigation_wraps() {
    let mut e = FoldExpr::new(Operation::Addition, vec![1.0f64, 2.0, 3.0], Some(0));
    assert_eq!(e.next_operand(), Some(1));
    assert_eq!(e.next_operand(), Some(2));
    assert_eq!(e.next_operand(), Some(0));
    assert_eq!(e.previous_operand(), Some(2));
    assert_eq!(e.next_operand(), Some(0));
    assert_eq!(e.cur_operand(), Some(0));
}

#[test]
fn fold_expr_without_current_operand_stays() {
    let mut e = FoldExpr::new(Operation::Root, vec![4.0f64], None);
    assert_eq!(e.next_operand(), None);
    assert_eq!(e.previous_operand(), None);
    e.cur_operand_to_last();
    assert_eq!(e.cur_operand(), None);
    assert!(e.new_from_cur_operand().is_none());
}

#[test]
fn fold_expr_reverse_collapse_replace() {
    let mut e = FoldExpr::new(Operation::Subtraction, vec![1.0f64, 2.0, 3.0], Some(1));
    e.reverse();
    assert_eq!(e.operands(), &vec![3.0, 2.0, 1.0]);
    e.cur_operand_to_last();
    assert_eq!(e.cur_operand(), Some(2));
    let single = e.new_from_cur_operand().unwrap();
    assert_eq!(single.operation, Operation::Addition);
    assert_eq!(single.operands(), &vec![1.0]);
    assert_eq!(single.cur_operand(), Some(0));
    assert_eq!(e.replace_cur_operand(9.0), 1.0);
    assert_eq!(e.operands(), &vec![3.0, 2.0, 9.0]);
    e.collapse(14.0);
    assert_eq!(e.operation, Operation::Addition);
    assert_eq!(e.operands(), &vec![14.0]);
    assert_eq!(e.cur_operand(), Some(0));
}

#[test]
fn fold_expr_assign_parsed_picks_current_operand() {
    let mut e = FoldExpr::new(Operation::Addition, vec![0.0f64], Some(0));
    e.assign_parsed(Operation::Division, vec![8.0, 2.0], Some(2));
    assert_eq!(e.operation, Operation::Division);
    assert_eq!(e.cur_operand(), Some(2));
    e.assign_parsed(Operation::Division, vec![8.0, 2.0], Some(3));
    assert_eq!(e.cur_operand(), None);
    e.assign_parsed(Operation::Division, vec![8.0, 2.0], None);
    assert_eq!(e.cur_operand(), Some(1));
    e.assign_parsed(Operation::Division, vec![], None);
    assert_eq!(e.cur_operand(), None);
}

#[test]
fn operation_symbols_round_trip() {
    let all = [
        Operation::Addition,
        Operation::Division,
        Operation::Factorial,
        Operation::Multiplication,
        Operation::Power,
        Operation::Root,
        Operation::Subtraction,
    ];
    for op in all {
        assert_eq!(Operation::try_from(op.as_char()), Ok(op));
        assert_eq!(op.is_unary(), op == Operation::Factorial);
        assert_eq!(op.to_text(), op.as_char().to_string());
    }
    assert_eq!(Operation::try_from('/'), Ok(Operation::Division));
    assert_eq!(Operation::try_from('*'), Ok(Operation::Multiplication));
    assert_eq!(Operation::try_from('⋅'), Ok(Operation::Multiplication));
    assert_eq!(Operation::try_from('∗'), Ok(Operation::Multiplication));
    assert_eq!(Operation::try_from('\\'), Ok(Operation::Root));
    assert_eq!(Operation::try_from('%'), Err(ParseOperationError::InvalidCharacter('%')));
    assert_eq!(Operation::Division.as_char(), '÷');
}

#[test]
fn operation_error_messages() {
    assert_eq!(OperationExecutionError::DivisionByZero.message(), "Division by zero!");
    assert_eq!(
        OperationExecutionError::InvalidInput.message(),
        "Operation not defined for given input!"
    );
    assert_eq!(
        OperationExecutionError::WrongOperandCount.message(),
        "Wrong number of operands provided for given operator!"
    );
    assert_eq!(
        ParseOperationError::InvalidCharacter('%').message(),
        "Parsing of operation failed due to following invalid character: %"
    );
    assert_eq!(ParseOperationError::EmptyInput.message(), "No operands provided!");
}
