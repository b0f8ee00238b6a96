use zac::interp::Interpreter;
use zac::parse::program;
use zac::parser::{
    Assignment, Block, Comment, Expr, FunctionCall, If, Program, Ref, While,
};
use zac::reassemble::{assemble_program, assemble_program_with};

fn var(name: &str) -> Expr {
    Expr::Ref(Ref::VarRef(name.to_string()))
}

fn of(exprs: Vec<Expr>) -> Program {
    Program { block: Block(exprs) }
}

fn rewritten(source: &str) -> String {
    assemble_program(&program(source).unwrap())
}

#[test]
fn every_expression_of_a_block_gets_its_line() {
    assert_eq!(assemble_program(&of(vec![])), "");
    assert_eq!(assemble_program(&of(vec![var("a"), var("b")])), "a\nb\n");
    assert_eq!(rewritten("  a   b c"), "a\nb\nc\n");
}

#[test]
fn references_are_written_as_they_are_read() {
    assert_eq!(rewritten("x #y"), "x\n#y\n");
}

#[test]
fn integers_are_written_in_decimal() {
    assert_eq!(rewritten("1200"), "1200\n");
    assert_eq!(
        assemble_program(&of(vec![
            Expr::IntLiteral(0),
            Expr::IntLiteral(-45),
            Expr::IntLiteral(i128::MAX),
            Expr::IntLiteral(i128::MIN),
        ])),
        "0\n-45\n170141183460469231731687303715884105727\n-170141183460469231731687303715884105728\n"
    );
}

#[test]
fn assignments_and_calls_are_written_on_one_line() {
    assert_eq!(rewritten("let   x =\n add( 1 , f( ),#c )"), "let x = add(1,f(),#c)\n");
    assert_eq!(rewritten("let #c = x"), "let #c = x\n");
}

#[test]
fn a_comment_is_written_line_by_line_below_its_name() {
    assert_eq!(rewritten("//   one line"), "// one line\n");
    assert_eq!(rewritten("// a\n// // b"), "// a\n// \n// b\n");
    assert_eq!(rewritten("//#name\n//body"), "// #name\n// body\n");
    assert_eq!(rewritten("// #name"), "// #name\n");
    assert_eq!(rewritten("// #name\n// one\n// two"), "// #name\n// one two\n");
    assert_eq!(rewritten("// #name\n// // b"), "// #name\n// \n// \n// b\n");
    assert_eq!(rewritten("f(// #name\n)"), "f(// #name)\n");
    let lines = Comment { name: None, body: "a\r\nb\n\nc\n".to_string() };
    assert_eq!(assemble_program(&of(vec![Expr::Comment(lines)])), "// a\n// b\n// \n// c\n");
    let empty = Comment { name: None, body: String::new() };
    assert_eq!(assemble_program(&of(vec![Expr::Comment(empty)])), "\n");
    let bare_return = Comment { name: None, body: "a\rb\r".to_string() };
    assert_eq!(assemble_program(&of(vec![Expr::Comment(bare_return)])), "// a\rb\r\n");
}

#[test]
fn loops_and_conditionals_are_written_with_braces() {
    let looped = Expr::While(While {
        cond: Box::new(var("go")),
        body: Block(vec![
            Expr::Assignment(Assignment {
                target: Ref::VarRef("go".to_string()),
                value: Box::new(var("false")),
            }),
            Expr::FunctionCall(FunctionCall {
                target: Ref::VarRef("print".to_string()),
                args: vec![Expr::IntLiteral(1)],
            }),
        ]),
    });
    assert_eq!(
        assemble_program(&of(vec![looped])),
        "while (go) {\nlet go = false\nprint(1)\n\n}\n"
    );
    let tested = Expr::If(If { cond: Box::new(var("go")), body: Block(vec![var("x")]) });
    assert_eq!(assemble_program(&of(vec![tested])), "if (go) {\nx\n\n}\n");
    let nested = Expr::Block(Block(vec![var("a"), Expr::Block(Block(vec![var("b")]))]));
    assert_eq!(assemble_program(&of(vec![nested])), "a\nb\n\n\n");
}

#[test]
fn a_comment_is_written_with_the_body_it_has_after_the_run() {
    let parsed = program("// #log\n// start\nlet #log = cat(#log, show(add(1, 1)))").unwrap();
    let mut interp = Interpreter::new();
    interp.seed_comments(&parsed).unwrap();
    let block = Expr::Block(parsed.block);
    interp.interp(&block).unwrap();
    let parsed = match block {
        Expr::Block(block) => Program { block },
        _ => unreachable!(),
    };
    assert_eq!(
        assemble_program(&parsed),
        "// #log\n// start\nlet #log = cat(#log,show(add(1,1)))\n"
    );
    assert_eq!(
        assemble_program_with(&parsed, &interp.comments()),
        "// #log\n// start2\nlet #log = cat(#log,show(add(1,1)))\n"
    );
}

#[test]
fn the_first_pair_of_a_name_counts() {
    let tree = of(vec![
        Expr::Comment(Comment { name: Some("a".to_string()), body: "own".to_string() }),
        Expr::Comment(Comment { name: Some("b".to_string()), body: "own".to_string() }),
        Expr::Comment(Comment { name: None, body: "own".to_string() }),
    ]);
    let pairs = vec![
        ("a".to_string(), "first\nlines".to_string()),
        ("a".to_string(), "second".to_string()),
    ];
    assert_eq!(
        assemble_program_with(&tree, &pairs),
        "// #a\n// first\n// lines\n// #b\n// own\n// own\n"
    );
}

#[test]
fn a_text_without_comments_is_read_back_as_the_same_program() {
    for source in [
        "x",
        "let x = 5\nadd(x, 12)",
        "f(g(h()), let y = #c, 7)\nlet let = let\nshow(show)",
        "let a = let b = let c = 170141183460469231731687303715884105727",
        "",
    ] {
        let first = program(source).unwrap();
        let second = program(&assemble_program(&first)).unwrap();
        assert_eq!(first, second);
    }
}

#[test]
fn a_text_with_single_comments_evaluates_the_same_when_read_back() {
    let source = "let s = // some text\nprint(s)\nlet t = cat(s, s)\n// more";
    let first = program(source).unwrap();
    let second = program(&assemble_program(&first)).unwrap();
    let mut one = Interpreter::new();
    let mut other = Interpreter::new();
    one.seed_comments(&first).unwrap();
    other.seed_comments(&second).unwrap();
    assert_eq!(one.interp(&Expr::Block(first.block)), other.interp(&Expr::Block(second.block)));
    assert_eq!(one.comments(), other.comments());
    assert_eq!(one.take_output(), other.take_output());
}

#[test]
fn comments_at_the_ends_of_lines_are_read_back() {
    for source in [
        "// one line",
        "let s = // a value\nprint(s)",
        "// first\nx\n// second // third\nlet a = let b = // nested",
        "// a\n// b\nx",
        "let\nlet x = // y\nlet\nx",
        "let let = let\nlet\nf(let, let)\nlet",
    ] {
        let first = program(source).unwrap();
        let second = program(&assemble_program(&first)).unwrap();
        assert_eq!(first, second, "{:?}", source);
    }
}

#[test]
fn named_comments_are_read_back_with_name_and_body() {
    for source in [
        "// #c\n// x",
        "// #c",
        "//#c\n//   x y  z\nlet #c = cat(#c, #c)\n#c",
        "// #a\n// first\nlet v = // #b\nlet #b = #a\n// #c\n// # not a name\nf(#a, #b, #c)",
        "f(// #c\n)\ng(1, let x = // #d\n, 2)",
        "// #c\n// one\n// two\nx",
    ] {
        let first = program(source).unwrap();
        let second = program(&assemble_program(&first)).unwrap();
        assert_eq!(first, second, "{:?}", source);
    }
}

#[test]
fn the_comments_known_are_the_same_after_writing_and_reading() {
    let source =
        "// #note\n// kept\nlet e = // #empty\nlet bang = // !\nlet #note = cat(#note, bang)\n#note";
    let first = program(source).unwrap();
    let second = program(&assemble_program(&first)).unwrap();
    let mut one = Interpreter::new();
    let mut other = Interpreter::new();
    assert_eq!(one.seed_comments(&first), Ok(()));
    assert_eq!(other.seed_comments(&second), Ok(()));
    assert_eq!(
        one.comments(),
        vec![("empty".to_string(), String::new()), ("note".to_string(), "kept".to_string())]
    );
    assert_eq!(one.comments(), other.comments());
    let value = one.run(&first);
    assert_eq!(value, Ok(zac::value::Value::String("kept!".to_string())));
    assert_eq!(value, other.run(&second));
    assert_eq!(one.comments(), other.comments());
}

#[test]
fn a_program_that_was_run_and_written_runs_again() {
    let source = "// #count\n// I\nlet #count = cat(#count, #count)\n#count";
    let first = program(source).unwrap();
    let mut interp = Interpreter::new();
    interp.seed_comments(&first).unwrap();
    assert_eq!(interp.run(&first), Ok(zac::value::Value::String("II".to_string())));
    let written = assemble_program_with(&first, &interp.comments());
    assert_eq!(written, "// #count\n// II\nlet #count = cat(#count,#count)\n#count\n");
    let second = program(&written).unwrap();
    let mut again = Interpreter::new();
    again.seed_comments(&second).unwrap();
    assert_eq!(again.run(&second), Ok(zac::value::Value::String("IIII".to_string())));
    assert_eq!(
        assemble_program_with(&second, &again.comments()),
        "// #count\n// IIII\nlet #count = cat(#count,#count)\n#count\n"
    );
}

#[test]
fn empty_comments_and_paragraphs_are_not_read_back() {
    let first = program("//").unwrap();
    assert_eq!(assemble_program(&first), "\n");
    assert_eq!(program("\n").unwrap().block.0, vec![]);
    let first = program("// a\n// // b").unwrap();
    let second = program(&assemble_program(&first)).unwrap();
    assert_eq!(
        second.block.0,
        vec![Expr::Comment(Comment { name: None, body: "a  b".to_string() })]
    );
    let first = program("// #a\n// // b").unwrap();
    let second = program(&assemble_program(&first)).unwrap();
    assert_eq!(
        second.block.0,
        vec![Expr::Comment(Comment { name: Some("a".to_string()), body: "  b".to_string() })]
    );
}

#[test]
fn a_comment_among_arguments_takes_the_rest_of_the_line_when_read_back() {
    let first = program("f(// a\n)").unwrap();
    assert_eq!(assemble_program(&first), "f(// a)\n");
    assert!(program("f(// a)\n").is_err());
}

fn outcome(source: &str) -> (Result<zac::value::Value, zac::error::Error>, Vec<(String, String)>) {
    let parsed = program(source).unwrap();
    let mut interp = Interpreter::new();
    interp.seed_comments(&parsed).unwrap();
    let value = interp.run(&parsed);
    (value, interp.comments())
}

#[test]
fn comments_that_grow_together_and_are_passed_over_keep_value_and_comments() {
    for source in [
        "// a\n\n// b\n5",
        "// a\n\n// b\n\n// c // d\nlet x = add(1, 2)\n// e\n\n// f\nx",
        "// #note\n// kept\nlet y = #note\n// one\n\n// two\n\n// three\ncat(y, #note)",
        "// only words\n\n// more words\nmissing",
    ] {
        let first = program(source).unwrap();
        let written = assemble_program(&first);
        let second = program(&written).unwrap();
        assert_ne!(first, second, "{:?}", source);
        assert_eq!(outcome(source), outcome(&written), "{:?}", source);
    }
}

#[test]
fn comments_that_grow_together_at_the_end_change_the_value() {
    let source = "5\n// a\n\n// b";
    let written = assemble_program(&program(source).unwrap());
    assert_eq!(outcome(source).0, Ok(zac::value::Value::String("b".to_string())));
    assert_eq!(outcome(&written).0, Ok(zac::value::Value::String("a b".to_string())));
}

#[test]
fn neighbouring_comments_grow_together_when_read_back() {
    let first = program("// a\n\n// b").unwrap();
    assert_eq!(first.block.0.len(), 2);
    let second = program(&assemble_program(&first)).unwrap();
    assert_eq!(
        second.block.0,
        vec![Expr::Comment(Comment { name: None, body: "a b".to_string() })]
    );
}
