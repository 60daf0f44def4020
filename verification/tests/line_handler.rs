use fcalc::fold_expr::FoldExpr;
use fcalc::function::{bind_arguments, parse as parse_function, FunctionError};
use fcalc::io::io_handler_new::{InternalStateError, IoHandler, LineAction};
use fcalc::io::io_handler_simplified::{simple_action, SimpleAction};
use fcalc::io::key::Key;
use fcalc::operation::Operation;

fn chars(s: &str) -> Vec<char> {
    s.chars().collect()
}

fn line(h: &IoHandler<i64>) -> String {
    h.lines().last().unwrap().iter().collect()
}

fn handler() -> IoHandler<i64> {
    let root = FoldExpr::new(Operation::Addition, vec![10, 20, 30], Some(0));
    let text = chars("+ 10 20 30");
    let col = text.len() - 1;
    IoHandler::new(root, text, col, 5, 80, 24)
}

#[test]
fn new_handler_holds_one_expression() {
    let h = handler();
    assert_eq!(h.fold_exprs().len(), 1);
    assert_eq!(h.lines().len(), 1);
    assert_eq!(h.cur_col(), 9);
    assert_eq!(h.cur_row(), 5);
    assert!(!h.syntax_error());
}

#[test]
fn key_actions_of_the_line_handler() {
    let mut h = handler();
    assert_eq!(h.action_for(Key::Char('q')), LineAction::Quit);
    assert_eq!(h.action_for(Key::Char('e')), LineAction::JumpOperand(true));
    assert_eq!(h.action_for(Key::Char('E')), LineAction::JumpOperand(false));
    assert_eq!(h.action_for(Key::Char('r')), LineAction::Reverse);
    assert_eq!(h.action_for(Key::Char('7')), LineAction::Insert('7'));
    assert_eq!(h.action_for(Key::Enter), LineAction::Collapse);
    assert_eq!(h.action_for(Key::ArrowRight), LineAction::MoveRight);
    assert_eq!(h.action_for(Key::ArrowLeft), LineAction::MoveLeft);
    assert_eq!(h.action_for(Key::ArrowUp), LineAction::Stay);
    h.set_syntax_error(true);
    assert_eq!(h.action_for(Key::Enter), LineAction::Stay);
}

#[test]
fn setting_the_current_operand_of_an_expression() {
    let mut h = handler();
    h.set_operand(0, 99);
    assert_eq!(h.fold_exprs()[0].operands(), &vec![99, 20, 30]);
    assert_eq!(h.fold_exprs()[0].cur_operand(), Some(0));
}

#[test]
fn jumping_between_operands_moves_the_cursor() {
    let mut h = handler();
    assert_eq!(h.jump_operand(true), Ok(Some(7)));
    assert_eq!(h.cur_col(), 7);
    assert_eq!(h.fold_exprs()[0].cur_operand(), Some(1));
    assert_eq!(h.jump_operand(true), Ok(Some(10)));
    assert_eq!(h.fold_exprs()[0].cur_operand(), Some(2));
    assert_eq!(h.jump_operand(true), Ok(Some(4)));
    assert_eq!(h.fold_exprs()[0].cur_operand(), Some(0));
    assert_eq!(h.jump_operand(false), Ok(Some(10)));
    assert_eq!(h.fold_exprs()[0].cur_operand(), Some(2));
}

#[test]
fn jumping_without_a_current_operand_stays() {
    let root = FoldExpr::new(Operation::Addition, vec![1, 2], None);
    let mut h = IoHandler::new(root, chars("+ 1 2"), 4, 0, 80, 24);
    assert_eq!(h.jump_operand(true), Ok(None));
    assert_eq!(h.cur_col(), 4);
}

#[test]
fn cursor_moves_stay_inside_the_line() {
    let mut h = handler();
    h.move_right().unwrap();
    assert_eq!(h.cur_col(), 10);
    h.move_right().unwrap();
    assert_eq!(h.cur_col(), 10);
    h.move_left(0);
    assert_eq!(h.cur_col(), 9);
    let root = FoldExpr::new(Operation::Addition, vec![1], Some(0));
    let mut g = IoHandler::new(root, chars("+ 1"), 1, 0, 80, 24);
    g.move_left(1);
    assert_eq!(g.cur_col(), 1);
    g.move_left(0);
    assert_eq!(g.cur_col(), 0);
    g.move_left(0);
    assert_eq!(g.cur_col(), 0);
}

#[test]
fn inserting_a_character() {
    let mut h = handler();
    h.insert_char('5', false).unwrap();
    assert_eq!(line(&h), "+ 10 20 350");
    assert_eq!(h.cur_col(), 9);
    h.insert_char('1', true).unwrap();
    assert_eq!(line(&h), "+ 10 20 3150");
    assert_eq!(h.cur_col(), 10);
}

#[test]
fn reversing_respects_the_syntax_error() {
    let mut h = handler();
    assert_eq!(h.reverse_last(), Ok(true));
    assert_eq!(h.fold_exprs()[0].operands(), &vec![30, 20, 10]);
    assert_eq!(h.reverse_last(), Ok(true));
    assert_eq!(h.fold_exprs()[0].operands(), &vec![10, 20, 30]);
    h.set_syntax_error(true);
    assert_eq!(h.reverse_last(), Ok(false));
    assert_eq!(h.fold_exprs()[0].operands(), &vec![10, 20, 30]);
}

#[test]
fn collapsing_the_only_expression() {
    let mut h = handler();
    h.collapse_last(60).unwrap();
    assert_eq!(h.fold_exprs()[0].operands(), &vec![60]);
    assert_eq!(h.fold_exprs()[0].cur_operand(), Some(0));
    h.set_line(0, chars("+ 60"));
    assert_eq!(line(&h), "+ 60");
}

#[test]
fn internal_state_error_messages() {
    assert_eq!(
        InternalStateError::NoFoldExpr.message(),
        "No fold expression to work with!"
    );
    assert_eq!(
        InternalStateError::OutOfSync.message(),
        "Fold expressions and their string representations are out of sync!"
    );
}

#[test]
fn simplified_handler_actions() {
    assert_eq!(simple_action(Key::Char('q')), SimpleAction::Quit);
    assert_eq!(simple_action(Key::Char('x')), SimpleAction::Insert('x'));
    assert_eq!(simple_action(Key::ArrowRight), SimpleAction::MoveRight);
    assert_eq!(simple_action(Key::ArrowLeft), SimpleAction::MoveLeft);
    assert_eq!(simple_action(Key::Enter), SimpleAction::Render);
}

#[test]
fn arguments_bind_to_the_first_matching_parameter() {
    let f = parse_function(&chars("+ 2'x 3 4'y 5'x")).unwrap();
    let names: Vec<String> = f.params.clone();
    assert_eq!(names, vec![String::from("x"), String::from("y")]);
    let slots = bind_arguments(&f.params, &f.operands, 2).unwrap();
    assert_eq!(slots, vec![Some(0), None, Some(1), Some(0)]);
}

#[test]
fn wrong_argument_count_is_refused() {
    let f = parse_function(&chars("+ 2'x 4'y")).unwrap();
    assert_eq!(
        bind_arguments(&f.params, &f.operands, 1),
        Err(FunctionError::ArgumentMismatch)
    );
    assert_eq!(
        bind_arguments(&f.params, &f.operands, 3),
        Err(FunctionError::ArgumentMismatch)
    );
}
