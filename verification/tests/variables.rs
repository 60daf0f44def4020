use fcalc::decimal::Decimal;
use fcalc::variables::{parse_del, parse_ins, HandleResult, VarMap};

fn to_f64(d: &Decimal) -> f64 {
    let mut cur = 0.0f64;
    for digit in &d.digits {
        cur = cur * 10.0 + *digit as f64;
    }
    let mut comp_div = 1.0f64;
    for _ in 0..d.scale {
        comp_div *= 10.0;
    }
    if d.negative {
        -cur / comp_div
    } else {
        cur / comp_div
    }
}

fn chars(s: &str) -> Vec<char> {
    s.chars().collect()
}

#[test]
fn declaration_lines() {
    let (name, value) = parse_ins("VAR std_gravity:9.80665").unwrap();
    assert_eq!(name, "std_gravity");
    assert_eq!(to_f64(&value), 9.80665);
    let (name, value) = parse_ins("VAR x:").unwrap();
    assert_eq!(name, "x");
    assert_eq!(to_f64(&value), 0.0);
    let (name, value) = parse_ins("VAR :5.").unwrap();
    assert_eq!(name, "");
    assert_eq!(to_f64(&value), 5.0);
    assert!(parse_ins("VAR x y:1").is_none());
    assert!(parse_ins("VAR x:1:2").is_none());
    assert!(parse_ins("VAR x").is_none());
    assert!(parse_ins("VAR x:1.2.3").is_none());
    assert!(parse_ins("VAR x:-1").is_none());
    assert!(parse_ins("var x:1").is_none());
    assert!(parse_ins("VAR\tx:1").is_none());
}

#[test]
fn deletion_lines() {
    assert_eq!(parse_del("DEL x"), Some(String::from("x")));
    assert_eq!(parse_del("DEL "), Some(String::from("")));
    assert!(parse_del("DEL x:1").is_none());
    assert!(parse_del("DEL a b").is_none());
    assert!(parse_del("VAR x").is_none());
}

#[test]
fn constants_read_back_as_doubles() {
    let m = VarMap::new();
    assert_eq!(m.len(), 3);
    assert_eq!(m.name_at(0), "e");
    assert_eq!(m.name_at(1), "euler_gamma");
    assert_eq!(m.name_at(2), "pi");
    assert_eq!(to_f64(m.get(&chars("pi")).unwrap()), std::f64::consts::PI);
    assert_eq!(to_f64(m.get(&chars("e")).unwrap()), std::f64::consts::E);
    assert_eq!(to_f64(m.get(&chars("euler_gamma")).unwrap()), 0.5772156649015329);
}

#[test]
fn handle_reports_what_it_did() {
    let mut m = VarMap::new();
    assert_eq!(m.handle(String::from("VAR g:9.81")), HandleResult::Insertion);
    assert_eq!(to_f64(m.get(&chars("g")).unwrap()), 9.81);
    assert_eq!(m.handle(String::from("VAR g:1")), HandleResult::Update);
    assert_eq!(to_f64(m.get(&chars("g")).unwrap()), 1.0);
    assert_eq!(m.name_at(1), "euler_gamma");
    assert_eq!(m.name_at(2), "g");
    assert_eq!(m.handle(String::from("DEL g")), HandleResult::RemovalSuccess);
    assert!(m.get(&chars("g")).is_none());
    assert_eq!(m.handle(String::from("DEL g")), HandleResult::RemovalFail);
    assert_eq!(m.handle(String::from("hello")), HandleResult::GenericFail);
    assert_eq!(m.len(), 3);
}

#[test]
fn table_insert_and_remove_keep_order() {
    let mut m = VarMap::empty();
    assert!(m.insert(chars("b"), parse_ins("VAR b:2").unwrap().1));
    assert!(m.insert(chars("a"), parse_ins("VAR a:1").unwrap().1));
    assert!(m.insert(chars("c"), parse_ins("VAR c:3").unwrap().1));
    assert!(!m.insert(chars("a"), parse_ins("VAR a:4").unwrap().1));
    assert_eq!(m.name_at(0), "a");
    assert_eq!(m.name_at(1), "b");
    assert_eq!(m.name_at(2), "c");
    assert_eq!(to_f64(m.value_at(0)), 4.0);
    assert!(m.remove(&chars("b")));
    assert!(!m.remove(&chars("b")));
    assert_eq!(m.len(), 2);
    assert_eq!(m.name_at(1), "c");
}
