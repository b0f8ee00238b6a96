use zac::error::Error;
use zac::interp::{builtin_comment, compose_help, generate_help_text, get_arg, Interpreter};
use zac::parse::program;
use unicode_width::UnicodeWidthStr;
use zac::parser::{Assignment, Expr, Ref};
use zac::table::can_print;
use zac::value::{Tag, Value};

const WELCOME: &str = "Help for the Zac Programming Language (https://github.com/sumeet/Zac)\n\nDefine a comment with the first line set to an identifier (like #help) and it will be a first-class\nstring usable inside of your program. You can read from it, and if you write to it, the change will\nbe reflected inside the source file.";

fn bind(interp: &mut Interpreter, name: &str, value: Expr) {
    let assignment = Expr::Assignment(Assignment {
        target: Ref::VarRef(name.to_string()),
        value: Box::new(value),
    });
    interp.interp(&assignment).unwrap();
}

#[test]
fn the_help_of_a_new_interpreter_lists_what_it_starts_with() {
    let interp = Interpreter::new();
    let expected = format!(
        "{}\n\nBuiltin functions:\n add  cat  chr  eq  not  print  show \n\nAvailable variables\n false  true",
        WELCOME
    );
    assert_eq!(generate_help_text(&interp), Some(expected.clone()));
    assert_eq!(builtin_comment(&interp, "help"), Some(expected));
}

#[test]
fn the_help_text_is_put_together_around_its_tables() {
    assert_eq!(
        compose_help(" one  two \n", " three \n \t\n"),
        format!(
            "{}\n\nBuiltin functions:\n one  two \n\nAvailable variables\n three",
            WELCOME
        )
    );
    assert_eq!(
        compose_help("", ""),
        format!("{}\n\nBuiltin functions:\n\nAvailable variables", WELCOME)
    );
}

#[test]
fn the_help_text_starts_with_the_welcome_text() {
    assert!(generate_help_text(&Interpreter::new())
        .unwrap()
        .starts_with(&format!("{}\n\nBuiltin functions:\n", WELCOME)));
}

#[test]
fn only_help_is_made_up() {
    let interp = Interpreter::new();
    assert_eq!(builtin_comment(&interp, "Help"), None);
    assert_eq!(builtin_comment(&interp, ""), None);
    assert_eq!(builtin_comment(&interp, "helper"), None);
}

#[test]
fn help_is_read_like_a_comment() {
    let parsed = program("#help").unwrap();
    let mut interp = Interpreter::new();
    let text = interp.interp(&Expr::Block(parsed.block)).unwrap();
    assert_eq!(text, Value::String(generate_help_text(&interp).unwrap()));
}

#[test]
fn help_comes_before_a_comment_of_that_name_but_cannot_be_assigned() {
    let parsed = program("// #help\n// mine\n#help").unwrap();
    let mut interp = Interpreter::new();
    interp.seed_comments(&parsed).unwrap();
    let text = interp.interp(&Expr::Block(parsed.block)).unwrap();
    assert_eq!(text, Value::String(generate_help_text(&interp).unwrap()));
    let mut fresh = Interpreter::new();
    let assigned = program("let #help = show(1)").unwrap();
    assert_eq!(
        fresh.interp(&Expr::Block(assigned.block)),
        Err(Error::UndefinedReference(Ref::CommentRef("help".to_string())))
    );
}

#[test]
fn names_are_laid_out_in_rows_of_ten_in_ascending_order() {
    let mut interp = Interpreter::new();
    for name in ["v09", "v02", "v11", "v01", "v04", "v03", "v06", "v05", "v08", "v07", "v10"] {
        bind(&mut interp, name, Expr::IntLiteral(1));
    }
    bind(&mut interp, "sum", Expr::Ref(Ref::VarRef("add".to_string())));
    bind(&mut interp, "Zed", Expr::Ref(Ref::VarRef("add".to_string())));
    let expected = format!(
        "{}\n\nBuiltin functions:\n Zed  add  cat  chr  eq  not  print  show  sum \n\nAvailable variables\n false  true  v01  v02  v03  v04  v05  v06  v07  v08 \n v09    v10   v11",
        WELCOME
    );
    assert_eq!(generate_help_text(&interp), Some(expected));
}

#[test]
fn a_name_with_a_control_sequence_is_listed() {
    let mut interp = Interpreter::new();
    bind(&mut interp, "\u{1b}[m", Expr::IntLiteral(1));
    bind(&mut interp, "odd\u{1b}[31mname", Expr::IntLiteral(1));
    bind(&mut interp, "odd\u{1b}name[", Expr::IntLiteral(1));
    bind(&mut interp, "end\u{1b}", Expr::IntLiteral(1));
    let help = generate_help_text(&interp).unwrap();
    assert!(help.contains(" \u{1b}[m "));
    assert!(help.contains("odd\u{1b}[31mname"));
    assert!(help.contains("odd\u{1b}name["));
    assert!(help.contains("end\u{1b}"));
    assert_eq!(builtin_comment(&interp, "help"), Some(help.clone()));
    assert_eq!(
        interp.interp(&Expr::Ref(Ref::CommentRef("help".to_string()))),
        Ok(Value::String(help))
    );
}

#[test]
fn a_name_that_the_table_printer_cannot_measure_leaves_no_help() {
    // two pairs of letters that are narrower together than alone, inside
    // what is taken for a control sequence
    let name = "\u{1b}[\u{a4f8}\u{a4fc}\u{a4f8}\u{a4fc}";
    assert_eq!(name.width(), 4);
    assert!(!can_print(name));
    let mut interp = Interpreter::new();
    bind(&mut interp, name, Expr::IntLiteral(1));
    assert_eq!(generate_help_text(&interp), None);
    assert_eq!(builtin_comment(&interp, "help"), None);
    assert_eq!(
        interp.interp(&Expr::Ref(Ref::CommentRef("help".to_string()))),
        Err(Error::UndefinedReference(Ref::CommentRef("help".to_string())))
    );
}

#[test]
fn cells_are_printable_unless_more_is_hidden_than_they_are_wide() {
    assert!(can_print(""));
    assert!(can_print("plain"));
    assert!(can_print("\u{1b}[m"));
    assert!(can_print("\u{1b}[1;31mred\u{1b}[0m"));
    assert!(can_print("\u{1b}[\u{a4f8}\u{a4fc}"));
    assert!(can_print("\u{1b}[\u{a4f8}\u{a4fc}m\u{a4f8}\u{a4fc}"));
    assert!(!can_print("\u{1b}[\u{a4f8}\u{a4fc}\u{a4f8}\u{a4fc}"));
    assert!(!can_print("fine\n\u{1b}[\u{a4f8}\u{a4fc}\u{a4f8}\u{a4fc}\nfine"));
    assert!(can_print("\u{1b}\n[\u{a4f8}\u{a4fc}\u{a4f8}\u{a4fc}"));
    assert!(can_print("\u{1b}\u{1b}[\u{a4f8}\u{a4fc}\u{a4f8}\u{a4fc}"));
}

#[test]
fn every_bound_name_is_listed_once_under_its_kind() {
    let mut interp = Interpreter::new();
    bind(&mut interp, "x", Expr::IntLiteral(5));
    bind(&mut interp, "f", Expr::Ref(Ref::VarRef("add".to_string())));
    let help = generate_help_text(&interp).unwrap();
    let (functions, variables) = help.split_once("\nAvailable variables\n").unwrap();
    assert!(functions.ends_with(" add  cat  chr  eq  f  not  print  show \n"));
    assert_eq!(variables, " false  true  x");
}

#[test]
fn arguments_are_taken_by_position() {
    let args = vec![Value::Int(1), Value::Bool(true)];
    assert_eq!(get_arg(&args, 0), Ok(&Value::Int(1)));
    assert_eq!(get_arg(&args, 1), Ok(&Value::Bool(true)));
    assert_eq!(get_arg(&args, 2), Err(Error::ArityError { position: 2 }));
}

#[test]
fn values_say_what_they_are() {
    let number = Value::Int(3);
    assert_eq!(number.as_num(), Ok(3));
    assert_eq!(number.as_bool(), Err(Error::TypeMismatch { expected: Tag::Bool }));
    assert_eq!(number.as_str(), Err(Error::TypeMismatch { expected: Tag::String }));
    assert_eq!(number.as_func(), Err(Error::TypeMismatch { expected: Tag::Function }));
    assert_eq!(Value::Bool(false).as_bool(), Ok(false));
    assert_eq!(Value::Bool(false).as_num(), Err(Error::TypeMismatch { expected: Tag::Int }));
    assert_eq!(Value::String("s".to_string()).as_str(), Ok("s"));
    assert_eq!(number.tag(), Tag::Int);
    assert_eq!(Value::Mapping(vec![]).tag(), Tag::Mapping);
}
