use fcalc::decimal::Decimal;
use fcalc::function::{parse, FunctionError, Term};
use fcalc::operation::{Operation, ParseOperationError};

fn to_f64(d: &Decimal) -> f64 {
    let mut cur = 0.0f64;
    for digit in &d.digits {
        cur = cur * 10.0 + *digit as f64;
    }
    let mut comp_div = 1.0f64;
    for _ in 0..d.scale {
        comp_div *= 10.0;
    }
    if d.negative {
        -cur / comp_div
    } else {
        cur / comp_div
    }
}

fn chars(s: &str) -> Vec<char> {
    s.chars().collect()
}

fn terms_as_pairs(terms: &[Term]) -> Vec<(Option<String>, f64)> {
    terms.iter().map(|t| (t.var_name.clone(), to_f64(&t.coeff))).collect()
}

#[test]
fn test_empty_parse() {
    assert!(parse(&Vec::new()).is_err());
}

#[test]
fn test_valid_parse() {
    let expected_params: Vec<(String, Option<f64>)> =
        vec!["!n", "...", "0", "va-l", "var1", "x.i", "z"]
            .iter()
            .map(|&s| (String::from(s), None))
            .collect();
    let expected_operation = Operation::Division;
    let expected_operands: Vec<(Option<String>, f64)> = vec![
        (None, 5.0),
        (Some(String::from("x.i")), 1.0),
        (Some(String::from("!n")), 2.1),
        (Some(String::from("var1")), 3.0),
        (Some(String::from("z")), 0.0),
        (Some(String::from("0")), 39.0),
        (Some(String::from("...")), -69.67),
        (Some(String::from("va-l")), -1521.0),
        (Some(String::from("x.i")), -6666.1),
    ];

    let test_vec: Vec<char> =
        "/ 5.' 1'x.i 2.1'!n 3'var1 0.00'z 39'0 - 69.67'... 1521-'va-l -6666.1'x.i"
            .chars()
            .collect();

    let actual = parse(&test_vec).expect("Parsing failed unexpectedly!");
    let actual_params: Vec<(String, Option<f64>)> =
        actual.params.iter().cloned().map(|name| (name, None)).collect();

    assert_eq!(expected_params, actual_params, "Parameter mismatch!");
    assert_eq!(expected_operation, actual.operation, "Operation mismatch!");
    assert_eq!(expected_operands, terms_as_pairs(&actual.operands), "Operands mismatch!");
}

#[test]
fn function_parse_reports_empty_input_at_position_zero() {
    assert_eq!(parse(&chars("   ")).err(), Some(FunctionError::ParseError(0, ' ')));
}

#[test]
fn function_parse_refuses_unknown_operator() {
    assert_eq!(
        parse(&chars("? 1")).err(),
        Some(FunctionError::ParseOperationError(ParseOperationError::InvalidCharacter('?')))
    );
}

#[test]
fn function_parse_refuses_second_delimiter() {
    assert_eq!(parse(&chars("+ 1'a'b")).err(), Some(FunctionError::ParseError(5, '\'')));
}

#[test]
fn function_parse_refuses_second_point() {
    assert_eq!(parse(&chars("+ 1.2.3")).err(), Some(FunctionError::ParseError(5, '.')));
}

#[test]
fn function_parse_refuses_second_minus_and_letters() {
    assert_eq!(parse(&chars("+ --1")).err(), Some(FunctionError::ParseError(3, '-')));
    assert_eq!(parse(&chars("+ 1x")).err(), Some(FunctionError::ParseError(3, 'x')));
}

#[test]
fn function_parse_delimiter_alone_gives_coefficient_one() {
    let p = parse(&chars("* 'x -'y")).unwrap();
    assert_eq!(p.params, vec![String::from("x"), String::from("y")]);
    assert_eq!(
        terms_as_pairs(&p.operands),
        vec![(Some(String::from("x")), 1.0), (Some(String::from("y")), -1.0)]
    );
}

#[test]
fn function_parse_drops_trailing_sign_without_digits() {
    let p = parse(&chars("+ 4 -")).unwrap();
    assert_eq!(terms_as_pairs(&p.operands), vec![(None, 4.0)]);
    assert!(p.params.is_empty());
}

#[test]
fn function_parse_params_are_the_variables_used_once_each() {
    let p = parse(&chars("+ 2'b 3'a 4'b 5")).unwrap();
    assert_eq!(p.params, vec![String::from("a"), String::from("b")]);
    assert_eq!(p.operands.len(), 4);
}

#[test]
fn surrounding_white_space_is_ignored() {
    let padded = parse(&chars(" \t + 2'x 3 \n ")).unwrap();
    let plain = parse(&chars("+ 2'x 3")).unwrap();
    assert_eq!(padded.params, plain.params);
    assert_eq!(padded.operation, plain.operation);
    assert_eq!(padded.operands, plain.operands);
}
