use zac::error::Error;
use zac::interp::Interpreter;
use zac::parse::program;
use zac::parser::{
    Assignment, Block, Comment, Expr, FunctionCall, If, Program, Ref, While,
};
use zac::value::{Function, Tag, Value};

fn var(name: &str) -> Expr {
    Expr::Ref(Ref::VarRef(name.to_string()))
}

fn text(body: &str) -> Expr {
    Expr::Comment(Comment { name: None, body: body.to_string() })
}

fn call(name: &str, args: Vec<Expr>) -> Expr {
    Expr::FunctionCall(FunctionCall { target: Ref::VarRef(name.to_string()), args })
}

fn set(name: &str, value: Expr) -> Expr {
    Expr::Assignment(Assignment { target: Ref::VarRef(name.to_string()), value: Box::new(value) })
}

fn set_comment(name: &str, value: Expr) -> Expr {
    Expr::Assignment(Assignment {
        target: Ref::CommentRef(name.to_string()),
        value: Box::new(value),
    })
}

fn run(source: &str) -> Result<Value, Error> {
    let parsed = program(source).expect("the text is a program");
    let mut interp = Interpreter::new();
    interp.seed_comments(&parsed).expect("no name twice");
    interp.interp(&Expr::Block(parsed.block))
}

#[test]
fn show_renders_booleans_and_integers() {
    assert_eq!(run("show(true)"), Ok(Value::String("true".to_string())));
    assert_eq!(run("show(false)"), Ok(Value::String("false".to_string())));
    assert_eq!(run("show(5)"), Ok(Value::String("5".to_string())));
}

#[test]
fn show_passes_a_string_through_and_names_no_function() {
    let mut interp = Interpreter::new();
    assert_eq!(
        interp.interp(&call("show", vec![text("as it is")])),
        Ok(Value::String("as it is".to_string()))
    );
    assert_eq!(run("show(add)"), Ok(Value::String("<function>".to_string())));
}

#[test]
fn show_lists_a_mapping() {
    let mapping = Value::Mapping(vec![
        (Value::String("a".to_string()), Value::Int(1)),
        (Value::Bool(true), Value::Function(Function::CatBuiltin)),
    ]);
    let mut interp = Interpreter::new();
    let shown = Function::ShowBuiltin.call(&mut interp, &[mapping]);
    assert_eq!(
        shown,
        Ok(Value::String("{String(\"a\"): Int(1), Bool(true): Function(CatBuiltin)}".to_string()))
    );
}

#[test]
fn assigning_a_number_to_a_comment_is_a_type_mismatch() {
    let mut interp = Interpreter::new();
    interp
        .add_comment(&Comment { name: Some("note".to_string()), body: "old".to_string() })
        .unwrap();
    let result = interp.interp(&set_comment("note", Expr::IntLiteral(3)));
    assert_eq!(result, Err(Error::TypeMismatch { expected: Tag::String }));
    assert_eq!(interp.comments(), vec![("note".to_string(), "old".to_string())]);
}

#[test]
fn assigning_to_an_unknown_comment_is_an_undefined_reference() {
    let mut interp = Interpreter::new();
    let result = interp.interp(&set_comment("nowhere", text("body")));
    assert_eq!(
        result,
        Err(Error::UndefinedReference(Ref::CommentRef("nowhere".to_string())))
    );
    let result = interp.interp(&set_comment("nowhere", Expr::IntLiteral(1)));
    assert_eq!(
        result,
        Err(Error::UndefinedReference(Ref::CommentRef("nowhere".to_string())))
    );
}

#[test]
fn assigning_a_string_to_a_comment_changes_its_body() {
    let parsed = program("// #note\n// first\nlet #note = cat(#note, #note)\n#note").unwrap();
    let mut interp = Interpreter::new();
    interp.seed_comments(&parsed).unwrap();
    let result = interp.interp(&Expr::Block(parsed.block));
    assert_eq!(result, Ok(Value::String("firstfirst".to_string())));
    assert_eq!(interp.comments(), vec![("note".to_string(), "firstfirst".to_string())]);
}

#[test]
fn a_loop_whose_condition_is_false_has_gone_round_zero_times() {
    let mut interp = Interpreter::new();
    let never = Expr::While(While { cond: Box::new(var("false")), body: Block(vec![]) });
    assert_eq!(interp.interp(&never), Ok(Value::Int(0)));
}

#[test]
fn a_loop_counts_its_rounds() {
    // let go = true  while (go) { let go = false }
    let mut interp = Interpreter::new();
    assert_eq!(interp.interp(&set("go", var("true"))), Ok(Value::Bool(true)));
    let once = Expr::While(While {
        cond: Box::new(var("go")),
        body: Block(vec![set("go", var("false"))]),
    });
    assert_eq!(interp.interp(&once), Ok(Value::Int(1)));
}

#[test]
fn a_loop_goes_on_for_as_long_as_its_condition_holds() {
    // let n = 0  while (not(eq(n, 100000))) { let n = add(n, 1) }
    let mut interp = Interpreter::new();
    interp.interp(&set("n", Expr::IntLiteral(0))).unwrap();
    let counting = Expr::While(While {
        cond: Box::new(call(
            "not",
            vec![call("eq", vec![var("n"), Expr::IntLiteral(100000)])],
        )),
        body: Block(vec![set("n", call("add", vec![var("n"), Expr::IntLiteral(1)]))]),
    });
    assert_eq!(interp.interp(&counting), Ok(Value::Int(100000)));
    assert_eq!(interp.interp(&var("n")), Ok(Value::Int(100000)));
}

#[test]
fn a_loop_writes_in_every_round() {
    let mut interp = Interpreter::new();
    interp.interp(&set("n", Expr::IntLiteral(0))).unwrap();
    let counting = Expr::While(While {
        cond: Box::new(call("not", vec![call("eq", vec![var("n"), Expr::IntLiteral(3)])])),
        body: Block(vec![
            set("n", call("add", vec![var("n"), Expr::IntLiteral(1)])),
            call("print", vec![var("n")]),
        ]),
    });
    assert_eq!(interp.interp(&counting), Ok(Value::Int(3)));
    assert_eq!(interp.take_output(), vec!["Int(1)", "Int(2)", "Int(3)"]);
    assert_eq!(interp.take_output(), Vec::<String>::new());
}

#[test]
fn a_failure_in_a_round_ends_the_loop() {
    let mut interp = Interpreter::new();
    let failing = Expr::While(While {
        cond: Box::new(var("true")),
        body: Block(vec![call("print", vec![Expr::IntLiteral(7)]), var("missing")]),
    });
    assert_eq!(
        interp.interp(&failing),
        Err(Error::UndefinedReference(Ref::VarRef("missing".to_string())))
    );
    assert_eq!(interp.take_output(), vec!["Int(7)"]);
}

#[test]
fn a_loop_needs_a_boolean_and_a_body() {
    let mut interp = Interpreter::new();
    let numbered = Expr::While(While { cond: Box::new(Expr::IntLiteral(1)), body: Block(vec![]) });
    assert_eq!(interp.interp(&numbered), Err(Error::TypeMismatch { expected: Tag::Bool }));
    let hollow = Expr::While(While { cond: Box::new(var("true")), body: Block(vec![]) });
    assert_eq!(interp.interp(&hollow), Err(Error::EmptyBlock));
}

#[test]
fn a_conditional_has_the_value_of_its_condition() {
    let mut interp = Interpreter::new();
    let taken = Expr::If(If {
        cond: Box::new(var("true")),
        body: Block(vec![set("seen", Expr::IntLiteral(1))]),
    });
    assert_eq!(interp.interp(&taken), Ok(Value::Bool(true)));
    assert_eq!(interp.interp(&var("seen")), Ok(Value::Int(1)));
    let skipped = Expr::If(If {
        cond: Box::new(var("false")),
        body: Block(vec![set("unseen", Expr::IntLiteral(1))]),
    });
    assert_eq!(interp.interp(&skipped), Ok(Value::Bool(false)));
    assert_eq!(
        interp.interp(&var("unseen")),
        Err(Error::UndefinedReference(Ref::VarRef("unseen".to_string())))
    );
    let numbered = Expr::If(If { cond: Box::new(Expr::IntLiteral(1)), body: Block(vec![]) });
    assert_eq!(interp.interp(&numbered), Err(Error::TypeMismatch { expected: Tag::Bool }));
}

#[test]
fn cat_joins_strings_in_order() {
    let mut interp = Interpreter::new();
    assert_eq!(
        interp.interp(&call("cat", vec![text("a"), text("b")])),
        Ok(Value::String("ab".to_string()))
    );
    assert_eq!(interp.interp(&call("cat", vec![])), Ok(Value::String(String::new())));
    assert_eq!(
        interp.interp(&call("cat", vec![text("a"), Expr::IntLiteral(1), text("b")])),
        Err(Error::TypeMismatch { expected: Tag::String })
    );
}

#[test]
fn calling_a_string_picks_a_character() {
    let mut interp = Interpreter::new();
    interp.interp(&set("s", text("hi"))).unwrap();
    assert_eq!(
        interp.interp(&call("s", vec![Expr::IntLiteral(0)])),
        Ok(Value::String("h".to_string()))
    );
    assert_eq!(
        interp.interp(&call("s", vec![Expr::IntLiteral(1)])),
        Ok(Value::String("i".to_string()))
    );
    assert_eq!(interp.interp(&call("s", vec![Expr::IntLiteral(5)])), Ok(Value::Bool(false)));
    assert_eq!(interp.interp(&call("s", vec![Expr::IntLiteral(2)])), Ok(Value::Bool(false)));
    assert_eq!(interp.interp(&call("s", vec![Expr::IntLiteral(-1)])), Ok(Value::Bool(false)));
    assert_eq!(
        interp.interp(&call("s", vec![Expr::IntLiteral(1i128 << 64)])),
        Ok(Value::Bool(false))
    );
    assert_eq!(interp.interp(&call("s", vec![])), Err(Error::ArityError { position: 0 }));
    assert_eq!(
        interp.interp(&call("s", vec![var("true")])),
        Err(Error::TypeMismatch { expected: Tag::Int })
    );
}

#[test]
fn calling_a_string_counts_characters_not_bytes() {
    let mut interp = Interpreter::new();
    interp.interp(&set("s", text("é!"))).unwrap();
    assert_eq!(
        interp.interp(&call("s", vec![Expr::IntLiteral(1)])),
        Ok(Value::String("!".to_string()))
    );
}

#[test]
fn only_functions_and_strings_can_be_called() {
    assert_eq!(run("true(1)"), Err(Error::NotCallable { found: Tag::Bool }));
    assert_eq!(run("let n = 4\nn(1)"), Err(Error::NotCallable { found: Tag::Int }));
    let mut interp = Interpreter::new();
    assert_eq!(
        interp.interp(&call("missing", vec![])),
        Err(Error::UndefinedReference(Ref::VarRef("missing".to_string())))
    );
}

#[test]
fn add_sums_and_wraps() {
    assert_eq!(run("add(2, 40)"), Ok(Value::Int(42)));
    let mut interp = Interpreter::new();
    assert_eq!(
        interp.interp(&call("add", vec![Expr::IntLiteral(i128::MAX), Expr::IntLiteral(1)])),
        Ok(Value::Int(i128::MIN))
    );
    assert_eq!(
        interp.interp(&call("add", vec![Expr::IntLiteral(i128::MIN), Expr::IntLiteral(-1)])),
        Ok(Value::Int(i128::MAX))
    );
}

#[test]
fn add_is_commutative_and_associative_on_samples() {
    let samples = [0i128, 1, -1, 17, i128::MAX, i128::MIN, i128::MAX - 5];
    let mut interp = Interpreter::new();
    let mut sum = |a: i128, b: i128| match Function::AddBuiltin
        .call(&mut interp, &[Value::Int(a), Value::Int(b)])
    {
        Ok(Value::Int(n)) => n,
        other => panic!("add gave {:?}", other),
    };
    for a in samples {
        for b in samples {
            assert_eq!(sum(a, b), sum(b, a));
            for c in samples {
                let left = sum(a, b);
                let right = sum(b, c);
                assert_eq!(sum(left, c), sum(a, right));
            }
        }
    }
}

#[test]
fn add_checks_its_arguments_in_order() {
    assert_eq!(run("add()"), Err(Error::ArityError { position: 0 }));
    assert_eq!(run("add(1)"), Err(Error::ArityError { position: 1 }));
    assert_eq!(run("add(true, 1)"), Err(Error::TypeMismatch { expected: Tag::Int }));
    assert_eq!(run("add(true)"), Err(Error::TypeMismatch { expected: Tag::Int }));
    assert_eq!(run("add(1, true)"), Err(Error::TypeMismatch { expected: Tag::Int }));
}

#[test]
fn eq_compares_values_by_what_they_hold() {
    assert_eq!(run("eq(1, 1)"), Ok(Value::Bool(true)));
    assert_eq!(run("eq(1, 2)"), Ok(Value::Bool(false)));
    assert_eq!(run("eq(1, true)"), Ok(Value::Bool(false)));
    assert_eq!(run("eq(add, add)"), Ok(Value::Bool(true)));
    assert_eq!(run("eq(add, cat)"), Ok(Value::Bool(false)));
    assert_eq!(run("eq(1)"), Err(Error::ArityError { position: 1 }));
    assert_eq!(run("eq()"), Err(Error::ArityError { position: 0 }));
}

#[test]
fn eq_is_reflexive_and_symmetric_on_samples() {
    let samples = vec![
        Value::String("a".to_string()),
        Value::String("b".to_string()),
        Value::Int(1),
        Value::Bool(true),
        Value::Function(Function::EqBuiltin),
        Value::Mapping(vec![(Value::Int(1), Value::String("a".to_string()))]),
        Value::Mapping(vec![(Value::Int(1), Value::String("b".to_string()))]),
        Value::Mapping(vec![]),
    ];
    let mut interp = Interpreter::new();
    for a in &samples {
        let same = Function::EqBuiltin.call(&mut interp, &[a.clone(), a.clone()]);
        assert_eq!(same, Ok(Value::Bool(true)));
        for b in &samples {
            let one = Function::EqBuiltin.call(&mut interp, &[a.clone(), b.clone()]);
            let other = Function::EqBuiltin.call(&mut interp, &[b.clone(), a.clone()]);
            assert_eq!(one, other);
        }
    }
}

#[test]
fn not_negates_a_boolean() {
    assert_eq!(run("not(true)"), Ok(Value::Bool(false)));
    assert_eq!(run("not(false)"), Ok(Value::Bool(true)));
    assert_eq!(run("not(1)"), Err(Error::TypeMismatch { expected: Tag::Bool }));
    assert_eq!(run("not()"), Err(Error::ArityError { position: 0 }));
}

#[test]
fn chr_makes_a_character_of_the_low_byte() {
    assert_eq!(run("chr(65)"), Ok(Value::String("A".to_string())));
    assert_eq!(run("chr(321)"), Ok(Value::String("A".to_string())));
    assert_eq!(run("chr(127)"), Ok(Value::String("\u{7f}".to_string())));
    assert_eq!(run("chr(256)"), Ok(Value::String("\0".to_string())));
    assert_eq!(run("chr(128)"), Err(Error::EncodingError));
    assert_eq!(run("chr(255)"), Err(Error::EncodingError));
    let mut interp = Interpreter::new();
    assert_eq!(
        interp.interp(&call("chr", vec![Expr::IntLiteral(-191)])),
        Ok(Value::String("A".to_string()))
    );
    assert_eq!(interp.interp(&call("chr", vec![Expr::IntLiteral(-1)])), Err(Error::EncodingError));
    assert_eq!(run("chr(true)"), Err(Error::TypeMismatch { expected: Tag::Int }));
    assert_eq!(run("chr()"), Err(Error::ArityError { position: 0 }));
}

#[test]
fn print_writes_the_debug_rendering_and_returns_its_argument() {
    let parsed = program("print(5)\nprint(true)\nprint(print)\nprint(// say \"hi\"\n)").unwrap();
    let mut interp = Interpreter::new();
    let result = interp.interp(&Expr::Block(parsed.block));
    assert_eq!(result, Ok(Value::String("say \"hi\"".to_string())));
    assert_eq!(
        interp.take_output(),
        vec!["Int(5)", "Bool(true)", "Function(PrintBuiltin)", "String(\"say \\\"hi\\\"\")"]
    );
    assert_eq!(run("print()"), Err(Error::ArityError { position: 0 }));
}

#[test]
fn print_renders_a_mapping() {
    let mapping = Value::Mapping(vec![(Value::Int(-3), Value::Mapping(vec![]))]);
    let mut interp = Interpreter::new();
    let printed = Function::PrintBuiltin.call(&mut interp, &[mapping.clone()]);
    assert_eq!(printed, Ok(mapping));
    assert_eq!(interp.take_output(), vec!["Map({Int(-3): Map({})})"]);
}

#[test]
fn what_was_done_before_a_failure_stays_done() {
    let parsed = program("let x = 1\nprint(x)\nmissing\nlet x = 2").unwrap();
    let mut interp = Interpreter::new();
    let result = interp.interp(&Expr::Block(parsed.block));
    assert_eq!(result, Err(Error::UndefinedReference(Ref::VarRef("missing".to_string()))));
    assert_eq!(interp.interp(&var("x")), Ok(Value::Int(1)));
    assert_eq!(interp.take_output(), vec!["Int(1)"]);
}

#[test]
fn an_empty_block_fails() {
    let mut interp = Interpreter::new();
    assert_eq!(interp.interp(&Expr::Block(Block(vec![]))), Err(Error::EmptyBlock));
    assert_eq!(run(""), Err(Error::EmptyBlock));
}

#[test]
fn a_block_has_the_value_of_its_last_expression() {
    assert_eq!(run("1 2 3"), Ok(Value::Int(3)));
    assert_eq!(run("let a = 1\nlet b = add(a, a)\nadd(b, b)"), Ok(Value::Int(4)));
}

#[test]
fn arguments_are_evaluated_from_left_to_right() {
    let parsed = program("add(print(1), print(2))").unwrap();
    let mut interp = Interpreter::new();
    assert_eq!(interp.interp(&Expr::Block(parsed.block)), Ok(Value::Int(3)));
    assert_eq!(interp.take_output(), vec!["Int(1)", "Int(2)"]);
}

#[test]
fn the_callee_is_looked_up_before_the_arguments() {
    let parsed = program("missing(print(1))").unwrap();
    let mut interp = Interpreter::new();
    assert_eq!(
        interp.interp(&Expr::Block(parsed.block)),
        Err(Error::UndefinedReference(Ref::VarRef("missing".to_string())))
    );
    assert_eq!(interp.take_output(), Vec::<String>::new());
}

#[test]
fn a_comment_is_a_string() {
    assert_eq!(run("// just words"), Ok(Value::String("just words".to_string())));
}

#[test]
fn a_named_comment_where_it_stands_has_its_present_body() {
    let parsed = program("// #c\n// v1\nlet #c = show(2)").unwrap();
    let mut interp = Interpreter::new();
    interp.seed_comments(&parsed).unwrap();
    assert_eq!(
        interp.interp(&Expr::Block(Block(vec![
            set_comment("c", call("show", vec![Expr::IntLiteral(2)])),
            Expr::Comment(Comment { name: Some("c".to_string()), body: "v1".to_string() }),
        ]))),
        Ok(Value::String("2".to_string()))
    );
    let unknown = Expr::Comment(Comment { name: Some("d".to_string()), body: "own".to_string() });
    assert_eq!(interp.interp(&unknown), Ok(Value::String("own".to_string())));
}

#[test]
fn two_comments_of_one_name_fail_the_seeding() {
    let parsed = program("// #twice\n// one\n\nadd(1, // #twice\n)").unwrap();
    let mut interp = Interpreter::new();
    assert_eq!(
        interp.seed_comments(&parsed),
        Err(Error::DuplicateCommentName("twice".to_string()))
    );
    assert_eq!(interp.comments(), vec![("twice".to_string(), "one".to_string())]);
}

#[test]
fn add_comment_takes_named_comments_once() {
    let mut interp = Interpreter::new();
    let unnamed = Comment { name: None, body: "x".to_string() };
    assert_eq!(interp.add_comment(&unnamed), Ok(()));
    assert_eq!(interp.add_comment(&unnamed), Ok(()));
    assert_eq!(interp.comments(), Vec::<(String, String)>::new());
    let b = Comment { name: Some("b".to_string()), body: "second".to_string() };
    let a = Comment { name: Some("a".to_string()), body: "first".to_string() };
    assert_eq!(interp.add_comment(&b), Ok(()));
    assert_eq!(interp.add_comment(&a), Ok(()));
    assert_eq!(interp.add_comment(&b), Err(Error::DuplicateCommentName("b".to_string())));
    assert_eq!(
        interp.comments(),
        vec![("a".to_string(), "first".to_string()), ("b".to_string(), "second".to_string())]
    );
    assert_eq!(
        interp.interp(&Expr::Ref(Ref::CommentRef("a".to_string()))),
        Ok(Value::String("first".to_string()))
    );
    assert_eq!(
        interp.interp(&Expr::Ref(Ref::CommentRef("c".to_string()))),
        Err(Error::UndefinedReference(Ref::CommentRef("c".to_string())))
    );
}

#[test]
fn variables_are_global() {
    let mut interp = Interpreter::new();
    let inner = Expr::If(If {
        cond: Box::new(var("true")),
        body: Block(vec![set("x", Expr::IntLiteral(9))]),
    });
    interp.interp(&set("x", Expr::IntLiteral(1))).unwrap();
    interp.interp(&inner).unwrap();
    assert_eq!(interp.interp(&var("x")), Ok(Value::Int(9)));
}

#[test]
fn a_whole_program_runs() {
    let parsed: Program = program("let n = add(1, 2)\nshow(n)").unwrap();
    let mut interp = Interpreter::new();
    assert_eq!(interp.interp(&Expr::Block(parsed.block)), Ok(Value::String("3".to_string())));
}
