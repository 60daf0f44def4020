use fcalc::decimal::Decimal;
use fcalc::fold_expr::FoldExpr;
use fcalc::io::io_handler::variable_handler::VariableHandler;
use fcalc::io::io_handler::{followup, Followup, Mode, State};
use fcalc::io::io_handler_new::{InternalStateError, IoHandler};
use fcalc::io::io_handler_simplified::{redraw_start, try_redraw_start};
use fcalc::io::key::Key;
use fcalc::operation::Operation;
use fcalc::variables::VarMap;

fn chars(s: &str) -> Vec<char> {
    s.chars().collect()
}

#[test]
fn forced_quit_goes_through_the_normal_mode() {
    assert_eq!(
        followup(Mode::VariableDecl, &State::ForceQuit),
        Followup::QuitThroughNormal
    );
}

#[test]
fn a_new_mode_is_drawn_before_it_is_entered() {
    let state = State::Continue(Mode::Normal, Some(String::from("Cancelled")));
    assert_eq!(
        followup(Mode::VariableDecl, &state),
        Followup::Enter(Mode::Normal, true)
    );
    let state = State::Continue(Mode::VariableDecl, None);
    assert_eq!(
        followup(Mode::VariableDecl, &state),
        Followup::Enter(Mode::VariableDecl, false)
    );
}

#[test]
fn a_carried_value_returns_to_the_normal_mode() {
    let value = Decimal { negative: false, digits: vec![3, 1], scale: 1 };
    let state = State::Carry(value, None);
    assert_eq!(
        followup(Mode::VariableSelect, &state),
        Followup::Enter(Mode::Normal, true)
    );
}

#[test]
fn checked_redraw_agrees_where_the_arithmetic_fits() {
    assert_eq!(try_redraw_start(10, &vec![5, 12], 10, false), Some((2, 1)));
    assert_eq!(
        try_redraw_start(10, &vec![5, 12], 10, false),
        Some(redraw_start(10, &vec![5, 12], 10, false))
    );
    assert_eq!(try_redraw_start(0, &vec![5, 12], 10, true), Some((0, 0)));
    assert_eq!(try_redraw_start(3, &vec![4], 10, true), Some((0, 1)));
}

#[test]
fn checked_redraw_refuses_what_would_overflow() {
    assert_eq!(try_redraw_start(5, &vec![5], 0, true), None);
    assert_eq!(try_redraw_start(5, &vec![0x10000], 10, true), None);
    assert_eq!(try_redraw_start(0, &vec![5, 12], 10, false), None);
    assert_eq!(try_redraw_start(3, &vec![], 10, false), None);
    assert_eq!(try_redraw_start(3, &vec![25], 10, true), None);
    assert_eq!(try_redraw_start(3, &vec![0xffff; 2], 1, true), None);
}

#[test]
fn screens_refuse_keys_they_cannot_take() {
    let h = VariableHandler::new(VarMap::new(), 80, 24);
    assert!(!h.select_accepts_key(Key::ArrowUp));
    assert!(!h.select_accepts_key(Key::ArrowDown));
    assert!(h.select_accepts_key(Key::Char('x')));
    assert!(!h.decl_accepts_key(Key::Char('C')));
    assert!(h.decl_accepts_key(Key::Char('x')));
}

#[test]
fn rendered_screens_take_their_keys() {
    let mut h = VariableHandler::new(VarMap::new(), 80, 24);
    h.render_select();
    assert!(h.select_accepts_key(Key::ArrowUp));
    assert!(h.select_accepts_key(Key::ArrowDown));
    assert!(h.select_accepts_key(Key::Enter));
    let mut d = VariableHandler::new(VarMap::new(), 80, 24);
    d.render_decl();
    assert!(d.decl_accepts_key(Key::Char('C')));
    assert!(d.decl_accepts_key(Key::Enter));
    assert!(d.decl_accepts_key(Key::Char('V')));
}

#[test]
fn names_containing_the_needle() {
    let h = VariableHandler::new(VarMap::new(), 80, 24);
    assert_eq!(h.matching_names(&chars("e")), vec![0, 1]);
    assert_eq!(h.matching_names(&chars("")), vec![0, 1, 2]);
    assert_eq!(h.matching_names(&chars("pi")), vec![2]);
    assert_eq!(h.matching_names(&chars("x")), Vec::<usize>::new());
}

#[test]
fn reading_the_top_line_again() {
    let root = FoldExpr::new(Operation::Addition, vec![1, 2], Some(0));
    let mut h = IoHandler::new(root, chars("+ 1 2"), 4, 0, 80, 24);
    assert_eq!(h.reassign_last(Operation::Multiplication, vec![2, 3], None), Ok(()));
    assert_eq!(h.fold_exprs()[0].operation, Operation::Multiplication);
    assert_eq!(h.fold_exprs()[0].operands(), &vec![2, 3]);
    assert_eq!(h.fold_exprs()[0].cur_operand(), Some(1));
    assert_eq!(h.reassign_last(Operation::Addition, vec![4], Some(7)), Ok(()));
    assert_eq!(h.fold_exprs()[0].cur_operand(), None);
    assert_eq!(
        InternalStateError::SyntaxError.message(),
        "Fold expression parsing failed due to syntax error!"
    );
}
