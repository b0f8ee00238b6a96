use zac::grammar::Expected;
use zac::parse::{program, ParseError};
use zac::parser::{
    find_comments, Assignment, Block, Comment, Expr, FunctionCall, If, Program, Ref, While,
};

fn var(name: &str) -> Expr {
    Expr::Ref(Ref::VarRef(name.to_string()))
}

fn anonymous(body: &str) -> Expr {
    Expr::Comment(Comment { name: None, body: body.to_string() })
}

fn named(name: &str, body: &str) -> Expr {
    Expr::Comment(Comment { name: Some(name.to_string()), body: body.to_string() })
}

fn call(name: &str, args: Vec<Expr>) -> Expr {
    Expr::FunctionCall(FunctionCall { target: Ref::VarRef(name.to_string()), args })
}

fn set(target: Ref, value: Expr) -> Expr {
    Expr::Assignment(Assignment { target, value: Box::new(value) })
}

fn block(source: &str) -> Vec<Expr> {
    match program(source) {
        Ok(parsed) => parsed.block.0,
        Err(e) => panic!("{:?} is no program: {:?}", source, e),
    }
}

fn failure(source: &str) -> ParseError {
    match program(source) {
        Ok(parsed) => panic!("{:?} is a program: {:?}", source, parsed),
        Err(e) => e,
    }
}

#[test]
fn an_empty_text_is_an_empty_program() {
    assert_eq!(block(""), vec![]);
    assert_eq!(block(" \t\r\n\n"), vec![]);
}

#[test]
fn white_space_at_both_ends_may_be_missing() {
    assert_eq!(block("x"), vec![var("x")]);
    assert_eq!(block("  x"), vec![var("x")]);
    assert_eq!(block("x\n"), vec![var("x")]);
    assert_eq!(block("\n\tx \r\n"), vec![var("x")]);
}

#[test]
fn expressions_are_separated_by_white_space() {
    assert_eq!(block("a b\nc\r\nd\te"), vec![var("a"), var("b"), var("c"), var("d"), var("e")]);
}

#[test]
fn identifiers_are_letters_digits_and_underscores() {
    assert_eq!(block("_a1 B_2 __"), vec![var("_a1"), var("B_2"), var("__")]);
    assert_eq!(block("#c_1"), vec![Expr::Ref(Ref::CommentRef("c_1".to_string()))]);
    assert_eq!(failure("é"), ParseError { position: 0, expected: Expected::Expression });
    assert_eq!(failure("a-b"), ParseError { position: 1, expected: Expected::Whitespace });
    assert_eq!(failure("# c"), ParseError { position: 0, expected: Expected::Expression });
}

#[test]
fn integer_literals_start_with_one_to_nine() {
    assert_eq!(block("7"), vec![Expr::IntLiteral(7)]);
    assert_eq!(block("1203400"), vec![Expr::IntLiteral(1203400)]);
    assert_eq!(
        block("170141183460469231731687303715884105727"),
        vec![Expr::IntLiteral(i128::MAX)]
    );
    assert_eq!(failure("0"), ParseError { position: 0, expected: Expected::Expression });
    assert_eq!(failure("012"), ParseError { position: 0, expected: Expected::Expression });
    assert_eq!(failure("-5"), ParseError { position: 0, expected: Expected::Expression });
    assert_eq!(failure("1 0"), ParseError { position: 2, expected: Expected::Expression });
}

#[test]
fn a_numeral_beyond_128_bits_is_no_literal() {
    assert_eq!(
        failure("170141183460469231731687303715884105728"),
        ParseError { position: 0, expected: Expected::Expression }
    );
    assert_eq!(
        failure("x 99999999999999999999999999999999999999999999"),
        ParseError { position: 2, expected: Expected::Expression }
    );
}

#[test]
fn a_number_directly_before_a_name_is_not_two_expressions() {
    assert_eq!(failure("12ab"), ParseError { position: 2, expected: Expected::Whitespace });
}

#[test]
fn assignments_need_white_space_around_the_equals_sign() {
    assert_eq!(block("let x = 5"), vec![set(Ref::VarRef("x".to_string()), Expr::IntLiteral(5))]);
    assert_eq!(
        block("let\n#c\t=\r\ny"),
        vec![set(Ref::CommentRef("c".to_string()), var("y"))]
    );
    assert_eq!(
        block("let a = let b = 1"),
        vec![set(
            Ref::VarRef("a".to_string()),
            set(Ref::VarRef("b".to_string()), Expr::IntLiteral(1))
        )]
    );
    // Without the white space, `let` and `x` are two references.
    assert_eq!(failure("let x= 5"), ParseError { position: 5, expected: Expected::Whitespace });
    assert_eq!(failure("let x =5"), ParseError { position: 6, expected: Expected::Expression });
    assert_eq!(failure("let x = "), ParseError { position: 6, expected: Expected::Expression });
}

#[test]
fn let_alone_is_a_name() {
    assert_eq!(block("let"), vec![var("let")]);
    assert_eq!(block("let x"), vec![var("let"), var("x")]);
    assert_eq!(block("letter"), vec![var("letter")]);
    assert_eq!(block("let let = let"), vec![set(Ref::VarRef("let".to_string()), var("let"))]);
}

#[test]
fn calls_take_arguments_between_parentheses() {
    assert_eq!(block("f()"), vec![call("f", vec![])]);
    assert_eq!(block("f( )"), vec![call("f", vec![])]);
    assert_eq!(block("f(1)"), vec![call("f", vec![Expr::IntLiteral(1)])]);
    assert_eq!(
        block("f( 1 ,\n#c,g(x) )"),
        vec![call(
            "f",
            vec![
                Expr::IntLiteral(1),
                Expr::Ref(Ref::CommentRef("c".to_string())),
                call("g", vec![var("x")]),
            ]
        )]
    );
    assert_eq!(
        block("f(let x = 1, 2)"),
        vec![call(
            "f",
            vec![set(Ref::VarRef("x".to_string()), Expr::IntLiteral(1)), Expr::IntLiteral(2)]
        )]
    );
}

#[test]
fn a_call_needs_its_parenthesis_directly_behind_the_name() {
    assert_eq!(failure("f (1)"), ParseError { position: 2, expected: Expected::Expression });
    assert_eq!(failure("f(1"), ParseError { position: 1, expected: Expected::Whitespace });
    assert_eq!(failure("f(1,)"), ParseError { position: 1, expected: Expected::Whitespace });
    assert_eq!(failure("f(,1)"), ParseError { position: 1, expected: Expected::Whitespace });
    assert_eq!(failure("f(1 2)"), ParseError { position: 1, expected: Expected::Whitespace });
    assert_eq!(failure("#c(1)"), ParseError { position: 2, expected: Expected::Whitespace });
}

#[test]
fn loops_cannot_be_written() {
    assert_eq!(
        failure("while(false){}"),
        ParseError { position: 12, expected: Expected::Whitespace }
    );
    assert_eq!(block("while(false)"), vec![call("while", vec![var("false")])]);
}

#[test]
fn a_comment_runs_to_the_end_of_its_line() {
    assert_eq!(block("// some words"), vec![anonymous("some words")]);
    assert_eq!(block("//some words  "), vec![anonymous("some words  ")]);
    assert_eq!(block("//"), vec![anonymous("")]);
    assert_eq!(block("// \t x"), vec![anonymous("x")]);
    assert_eq!(block("// a\nb"), vec![anonymous("a"), var("b")]);
    assert_eq!(block("// a\r\nb"), vec![anonymous("a"), var("b")]);
    assert_eq!(block("x // let y = 1"), vec![var("x"), anonymous("let y = 1")]);
}

#[test]
fn the_blanks_behind_the_marker_do_not_reach_into_the_next_line() {
    assert_eq!(block("//\nx"), vec![anonymous(""), var("x")]);
    assert_eq!(block("// \n#x"), vec![anonymous(""), Expr::Ref(Ref::CommentRef("x".to_string()))]);
}

#[test]
fn comment_lines_that_follow_each_other_are_one_comment() {
    assert_eq!(block("// a\n// b"), vec![anonymous("a b")]);
    assert_eq!(block("// a\r\n//b\n// c\nd"), vec![anonymous("a b c"), var("d")]);
    assert_eq!(block("// a\n\n// b"), vec![anonymous("a"), anonymous("b")]);
    assert_eq!(block("// a\n // b"), vec![anonymous("a"), anonymous("b")]);
    assert_eq!(block("//\n//\n//"), vec![anonymous("  ")]);
}

#[test]
fn a_line_that_repeats_the_marker_starts_a_paragraph() {
    assert_eq!(block("// a\n// // b"), vec![anonymous("a\n\nb")]);
    assert_eq!(block("// a\n//////  b"), vec![anonymous("a\n\nb")]);
    assert_eq!(block("// a\n// // b\n// c"), vec![anonymous("a\n\nb c")]);
    assert_eq!(block("// a\n// //\n// c"), vec![anonymous("a\n\nc")]);
    assert_eq!(block("// a\n// //\u{a0}b"), vec![anonymous("a\n\nb")]);
    assert_eq!(block("// a\n// b\n// // c\n// d"), vec![anonymous("a b\n\nc d")]);
    assert_eq!(block("// a\n// b // c"), vec![anonymous("a b // c")]);
    // The first line keeps its markers.
    assert_eq!(block("// // a\n// b"), vec![anonymous("// a b")]);
}

#[test]
fn a_named_comment_has_the_lines_below_its_name_as_body() {
    assert_eq!(block("// #note"), vec![named("note", "")]);
    assert_eq!(block("//#note"), vec![named("note", "")]);
    assert_eq!(block("// #note\n// the body"), vec![named("note", "the body")]);
    assert_eq!(block("// #note\n// one\n// two\nx"), vec![named("note", "one two"), var("x")]);
    assert_eq!(block("// #note\n// // b"), vec![named("note", "\n\nb")]);
    assert_eq!(block("// #note\n\n// far"), vec![named("note", ""), anonymous("far")]);
}

#[test]
fn what_stands_behind_a_name_is_no_part_of_the_comment() {
    assert_eq!(block("// #note x"), vec![named("note", ""), var("x")]);
    assert_eq!(failure("// #note, x"), ParseError { position: 8, expected: Expected::Whitespace });
    assert_eq!(block("// # note"), vec![anonymous("# note")]);
    assert_eq!(block("// #1"), vec![anonymous("#1")]);
}

#[test]
fn a_lone_carriage_return_is_no_white_space() {
    assert_eq!(failure("a\rb"), ParseError { position: 1, expected: Expected::Whitespace });
    assert_eq!(failure("// a\rb"), ParseError { position: 4, expected: Expected::Whitespace });
    assert_eq!(failure(" \r"), ParseError { position: 1, expected: Expected::Expression });
}

#[test]
fn places_count_characters() {
    assert_eq!(failure("// é\n)"), ParseError { position: 5, expected: Expected::Expression });
}

#[test]
fn comments_are_found_in_the_order_of_the_text() {
    let parsed = program("// #a\n// one\nf(// two\n, let x = // #b\n)\n// three").unwrap();
    let found: Vec<Comment> = find_comments(&parsed).into_iter().cloned().collect();
    assert_eq!(
        found,
        vec![
            Comment { name: Some("a".to_string()), body: "one".to_string() },
            Comment { name: None, body: "two".to_string() },
            Comment { name: Some("b".to_string()), body: "".to_string() },
            Comment { name: None, body: "three".to_string() },
        ]
    );
}

#[test]
fn comments_are_found_in_loops_and_conditionals() {
    let c = |body: &str| Comment { name: None, body: body.to_string() };
    let tree = Program {
        block: Block(vec![
            Expr::While(While {
                cond: Box::new(Expr::Comment(c("1"))),
                body: Block(vec![Expr::Comment(c("2")), Expr::Block(Block(vec![Expr::Comment(c("3"))]))]),
            }),
            Expr::If(If {
                cond: Box::new(Expr::Comment(c("4"))),
                body: Block(vec![Expr::IntLiteral(1), Expr::Comment(c("5"))]),
            }),
        ]),
    };
    let found: Vec<String> = find_comments(&tree).into_iter().map(|c| c.body.clone()).collect();
    assert_eq!(found, vec!["1", "2", "3", "4", "5"]);
}
