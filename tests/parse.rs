use turing_parser::ast::{Dir, Kind, ParseError, Rule, Step, Sym, Term};
use turing_parser::parse;

fn rule(from: &str, read: Sym, ops: Vec<Step>, to: &str) -> Rule {
    Rule { from: from.to_string(), read, ops, to: to.to_string() }
}

fn sym(s: &str) -> Sym {
    Sym::String(s.to_string())
}

fn rule_of(text: &str) -> Rule {
    match parse(text) {
        Ok(Term::Rule(r)) => r,
        other => panic!("not a rule: {:?}", other),
    }
}

fn reserved(word: &str, pos: usize) -> ParseError {
    ParseError::Reserved { word: word.to_string(), pos }
}

#[test]
fn example_machine_end_to_end() {
    let t = parse("(machine m0 (table (m0 0 [R] m1) (m1 _ _ m0)))").unwrap();
    let expected = Term::Machine(
        "m0".to_string(),
        Box::new(Term::Table(vec![
            rule("m0", sym("0"), vec![Step::Move(Dir::Right)], "m1"),
            rule("m1", Sym::Any, vec![Step::Move(Dir::Stay)], "m0"),
        ])),
    );
    assert_eq!(t, expected);
}

#[test]
fn reserved_word_as_machine_name_aborts() {
    assert_eq!(parse("(machine machine x)"), Err(reserved("machine", 9)));
}

#[test]
fn every_reserved_word_is_refused_as_a_name() {
    assert_eq!(parse("(machine table x)"), Err(reserved("table", 9)));
    assert_eq!(parse("(machine blank x)"), Err(reserved("blank", 9)));
    assert_eq!(parse("(machine any x)"), Err(reserved("any", 9)));
    assert_eq!(parse("(any 0 _ b)"), Err(reserved("any", 1)));
    assert_eq!(parse("(a 0 _ machine)"), Err(reserved("machine", 7)));
}

#[test]
fn names_that_begin_with_a_reserved_word_are_accepted() {
    assert_eq!(
        parse("(machine machineX (table))"),
        Ok(Term::Machine("machineX".to_string(), Box::new(Term::Table(vec![]))))
    );
    assert_eq!(
        parse("(machine table1 (table))"),
        Ok(Term::Machine("table1".to_string(), Box::new(Term::Table(vec![]))))
    );
    assert_eq!(rule_of("(anyway 0 _ blanks)").to, "blanks");
}

#[test]
fn names_take_punctuation_after_the_first_letter() {
    let r = rule_of("(q-1.a 0 _ r!?#)");
    assert_eq!(r.from, "q-1.a");
    assert_eq!(r.to, "r!?#");
}

#[test]
fn operation_order_is_kept() {
    let r = rule_of("(m0 0 [R,P1,E] m1)");
    assert_eq!(
        r.ops,
        vec![
            Step::Move(Dir::Right),
            Step::Effect(Kind::Print(sym("1"))),
            Step::Effect(Kind::Erase),
        ]
    );
}

#[test]
fn operations_after_commas_may_be_spaced() {
    let r = rule_of("(m0 0 [L,  N, Pblank] m1)");
    assert_eq!(
        r.ops,
        vec![Step::Move(Dir::Left), Step::Move(Dir::Stay), Step::Effect(Kind::Print(Sym::Blank))]
    );
}

#[test]
fn no_op_shorthands_agree() {
    let a = rule_of("(a 0 [] b)");
    let b = rule_of("(a 0 _ b)");
    assert_eq!(a.ops, vec![Step::Move(Dir::Stay)]);
    assert_eq!(a, b);
}

#[test]
fn wildcard_forms_agree() {
    let a = rule_of("(a any [R] b)");
    let b = rule_of("(a _ [R] b)");
    assert_eq!(a.read, Sym::Any);
    assert_eq!(a, b);
}

#[test]
fn blank_word_is_the_blank_symbol() {
    assert_eq!(rule_of("(a blank [E] b)").read, Sym::Blank);
    assert_eq!(parse("blank"), Ok(Term::Symbol(Sym::Blank)));
    assert_eq!(parse("any"), Ok(Term::Symbol(Sym::Any)));
    assert_eq!(parse("blank7"), Ok(Term::Symbol(sym("blank7"))));
}

#[test]
fn table_keeps_rule_order() {
    let t = parse("(table (a 0 [R] b) (b 1 [L] c) (c _ _ a))").unwrap();
    let expected = Term::Table(vec![
        rule("a", sym("0"), vec![Step::Move(Dir::Right)], "b"),
        rule("b", sym("1"), vec![Step::Move(Dir::Left)], "c"),
        rule("c", Sym::Any, vec![Step::Move(Dir::Stay)], "a"),
    ]);
    assert_eq!(t, expected);
}

#[test]
fn parsing_twice_gives_equal_trees() {
    let text = "(machine m0 (table (m0 0 [R,Px] m1) (m1 _ [E,L] m0)))";
    assert_eq!(parse(text), parse(text));
}

#[test]
fn empty_text_is_a_syntax_error() {
    assert_eq!(parse(""), Err(ParseError::Syntax { pos: 0 }));
    assert_eq!(parse(")"), Err(ParseError::Syntax { pos: 0 }));
    assert_eq!(parse("  a"), Err(ParseError::Syntax { pos: 0 }));
}

#[test]
fn syntax_error_reports_the_furthest_offset() {
    assert_eq!(parse("(a 0 [X] b)"), Err(ParseError::Syntax { pos: 6 }));
    assert_eq!(parse("(a 0 [R] b"), Err(ParseError::Syntax { pos: 10 }));
}

#[test]
fn print_of_the_wildcard_is_refused() {
    assert_eq!(parse("(a 0 [Pany] b)"), Err(ParseError::Syntax { pos: 6 }));
}

#[test]
fn table_child_that_is_not_a_rule_aborts() {
    assert_eq!(parse("(table foo)"), Err(ParseError::Syntax { pos: 0 }));
    assert_eq!(parse("(table (table))"), Err(ParseError::Syntax { pos: 0 }));
}

#[test]
fn text_after_the_term_is_left_unread() {
    assert_eq!(parse("abc def"), Ok(Term::Symbol(sym("abc"))));
}

#[test]
fn machine_body_may_be_any_term() {
    assert_eq!(
        parse("(machine m x1)"),
        Ok(Term::Machine("m".to_string(), Box::new(Term::Symbol(sym("x1")))))
    );
}

#[test]
fn unicode_letters_and_spaces_count() {
    assert_eq!(
        parse("(machine\u{a0}é1\t(table))"),
        Ok(Term::Machine("é1".to_string(), Box::new(Term::Table(vec![]))))
    );
}
