use fcalc::io::io_handler::variable_handler::{
    match_rows, visible_matches, Output, VariableHandler,
};
use fcalc::io::io_handler::{IoError, Mode, State};
use fcalc::io::io_handler_new::{operand_column, read_row_report, RowReport};
use fcalc::io::io_handler_simplified::{redraw_start, IoError as LineIoError};
use fcalc::io::key::Key;
use fcalc::terminal::{validate_size, TerminalPreparationError};
use fcalc::variables::VarMap;

fn chars(s: &str) -> Vec<char> {
    s.chars().collect()
}

fn texts(h: &VariableHandler) -> Vec<String> {
    let n = h.var_map.len();
    (0..n).map(|i| format!("<{}>", h.var_map.name_at(i))).collect()
}

fn screen_input(o: &Output) -> String {
    match o {
        Output::Decl(s) | Output::Select(s) => s.input.iter().collect(),
        Output::CursorTo(_) => String::new(),
    }
}

fn key(h: &mut VariableHandler, k: Key) -> (State, Vec<Output>) {
    let t = texts(h);
    h.handle_decl(k, &t)
}

#[test]
fn declaring_a_variable() {
    let mut h = VariableHandler::new(VarMap::new(), 80, 24);
    let first = h.render_decl();
    assert_eq!(screen_input(&first), "VAR ");
    for c in "x:2".chars() {
        let (state, outs) = key(&mut h, Key::Char(c));
        assert!(matches!(state, State::Continue(Mode::VariableDecl, None)));
        assert_eq!(outs.len(), 2);
    }
    let (_, outs) = key(&mut h, Key::ArrowLeft);
    assert!(matches!(outs[1], Output::CursorTo(6)));
    let (state, outs) = key(&mut h, Key::Enter);
    assert!(outs.is_empty());
    match state {
        State::Continue(Mode::Normal, Some(msg)) => {
            assert_eq!(msg, "\x1b[42m\x1b[30mVariable declaration successful!\x1b[0m")
        }
        _ => panic!("unexpected state"),
    }
    assert!(h.var_map.get(&chars("x")).is_some());
}

#[test]
fn malformed_declaration_is_reported() {
    let mut h = VariableHandler::new(VarMap::new(), 80, 24);
    h.render_decl();
    key(&mut h, Key::Char(' '));
    let (state, _) = key(&mut h, Key::Enter);
    match state {
        State::Continue(Mode::Normal, Some(msg)) => {
            assert_eq!(msg, "\x1b[41mMalformed input!\x1b[0m")
        }
        _ => panic!("unexpected state"),
    }
}

#[test]
fn choosing_a_match_fills_name_and_value() {
    let mut h = VariableHandler::new(VarMap::new(), 80, 24);
    h.render_decl();
    key(&mut h, Key::Char('e'));
    let (_, outs) = key(&mut h, Key::ArrowDown);
    match &outs[0] {
        Output::Decl(s) => {
            assert_eq!(s.selection, Some(0));
            assert_eq!(s.needle, vec!['e']);
        }
        _ => panic!("expected the declaration screen"),
    }
    key(&mut h, Key::ArrowDown);
    let (_, outs) = key(&mut h, Key::ArrowDown);
    match &outs[0] {
        Output::Decl(s) => assert_eq!(s.selection, Some(1)),
        _ => panic!("expected the declaration screen"),
    }
    let (_, outs) = key(&mut h, Key::Enter);
    assert_eq!(screen_input(&outs[0]), "VAR euler_gamma:<euler_gamma>");
    assert!(matches!(outs[1], Output::CursorTo(29)));
}

#[test]
fn switching_between_declaration_and_deletion() {
    let mut h = VariableHandler::new(VarMap::new(), 80, 24);
    h.render_decl();
    key(&mut h, Key::Char('p'));
    let (_, outs) = key(&mut h, Key::Char('D'));
    assert_eq!(screen_input(&outs[0]), "DEL p");
    let (_, outs) = key(&mut h, Key::Char('V'));
    assert_eq!(screen_input(&outs[0]), "VAR p");
    let (_, outs) = key(&mut h, Key::Char('C'));
    assert_eq!(screen_input(&outs[0]), "VAR ");
    let (state, outs) = key(&mut h, Key::Backspace);
    assert!(outs.is_empty());
    match state {
        State::Continue(Mode::VariableDecl, Some(msg)) => assert_eq!(msg, "Nothing to delete!"),
        _ => panic!("unexpected state"),
    }
    let (state, _) = key(&mut h, Key::Char('Q'));
    assert!(matches!(state, State::ForceQuit));
}

#[test]
fn deleting_through_the_screen() {
    let mut h = VariableHandler::new(VarMap::new(), 80, 24);
    h.render_decl();
    key(&mut h, Key::Char('D'));
    key(&mut h, Key::Char('p'));
    key(&mut h, Key::Char('i'));
    let (state, _) = key(&mut h, Key::Enter);
    match state {
        State::Continue(Mode::Normal, Some(msg)) => {
            assert_eq!(msg, "\x1b[42m\x1b[30mVariable removal successful!\x1b[0m")
        }
        _ => panic!("unexpected state"),
    }
    assert!(h.var_map.get(&chars("pi")).is_none());
}

#[test]
fn selecting_a_variable_carries_its_value() {
    let mut h = VariableHandler::new(VarMap::new(), 80, 24);
    h.render_select();
    h.handle_select(Key::Char('p'));
    let (state, outs) = h.handle_select(Key::Enter);
    assert!(outs.is_empty());
    match state {
        State::Carry(value, Some(msg)) => {
            assert_eq!(msg, "Inserted pi");
            assert_eq!(value.digits.len(), 16);
            assert_eq!(value.scale, 15);
        }
        _ => panic!("unexpected state"),
    }
}

#[test]
fn selecting_without_match() {
    let mut h = VariableHandler::new(VarMap::new(), 80, 24);
    h.render_select();
    h.handle_select(Key::Char('q'));
    let mut h = VariableHandler::new(VarMap::new(), 80, 24);
    h.render_select();
    h.handle_select(Key::Char('z'));
    let (state, _) = h.handle_select(Key::Enter);
    match state {
        State::Continue(Mode::Normal, Some(msg)) => assert_eq!(msg, "No matching variable found!"),
        _ => panic!("unexpected state"),
    }
}

#[test]
fn match_layout_and_scrolling() {
    let rows = match_rows(&vec![2, 11], &vec![17, 18], 10);
    assert_eq!(rows, vec![(2, 2), (3, 5)]);
    assert_eq!(visible_matches(&rows, Some(1), 5), (2, 2));
    assert_eq!(visible_matches(&rows, Some(1), 10), (0, 2));
    assert_eq!(visible_matches(&rows, None, 5), (0, 1));
}

#[test]
fn redraw_geometry() {
    assert_eq!(redraw_start(10, &vec![5, 12], 10, false), (2, 1));
    assert_eq!(redraw_start(1, &vec![5, 12], 10, false), (0, 2));
    assert_eq!(redraw_start(0, &vec![5, 12], 10, true), (0, 0));
}

#[test]
fn operand_columns() {
    let line = chars("+ 12 3.5 -7");
    assert_eq!(operand_column(&line, 0), 4);
    assert_eq!(operand_column(&line, 1), 8);
    assert_eq!(operand_column(&line, 2), 11);
    assert_eq!(operand_column(&line, 5), 11);
}

#[test]
fn row_report_refuses_separator() {
    let s = read_row_report(RowReport::AwaitEscape, 0x1b).ok().unwrap();
    assert_eq!(s, RowReport::AwaitBracket);
    let s = read_row_report(s, b'[').ok().unwrap();
    let s = read_row_report(s, b'1').ok().unwrap();
    let s = read_row_report(s, b'2').ok().unwrap();
    assert_eq!(s, RowReport::Row(12));
    assert!(matches!(read_row_report(s, b';'), Err(LineIoError::MissingRowInformation)));
    assert!(matches!(
        read_row_report(RowReport::AwaitEscape, b'['),
        Err(LineIoError::MissingRowInformation)
    ));
}

#[test]
fn terminal_and_handler_errors() {
    assert_eq!(validate_size(80, 24).ok(), Some((80, 24)));
    let e = validate_size(0, 24).err().unwrap();
    assert!(matches!(e, TerminalPreparationError::BadTerminalSize));
    assert_eq!(e.message(), "Couldn't fetch terminal size!");
    assert_eq!(IoError::HandlerConstructionError.message(), "Error construtcting `IoHandler`!");
    assert_eq!(LineIoError::MissingRowInformation.message(), "Couldn't fetch row information!");
    let io = IoError::from(std::io::Error::new(std::io::ErrorKind::Other, "boom"));
    assert_eq!(io.message(), "`IoHandler`: boom");
}
