use zac::names::NameTable;
use zac::parser::{Assignment, Block, Comment, Expr, FunctionCall, If, Program, Ref, While};
use zac::text::{
    chars_of, compare, decimal_string, lines_of, same_text, string_of,
    trim_end_string, white_space, Order,
};
use zac::value::{
    clone_value, debug_string, show_string, tagged, values_equal, Function, Value,
};

#[test]
fn numbers_are_written_in_decimal() {
    assert_eq!(decimal_string(0), "0");
    assert_eq!(decimal_string(7), "7");
    assert_eq!(decimal_string(10), "10");
    assert_eq!(decimal_string(-1), "-1");
    assert_eq!(decimal_string(1234567890), "1234567890");
    assert_eq!(decimal_string(i128::MAX), i128::MAX.to_string());
    assert_eq!(decimal_string(i128::MIN), i128::MIN.to_string());
    for n in [-1000i128, -99, -10, -9, 9, 99, 100, 101, 1i128 << 100] {
        assert_eq!(decimal_string(n), n.to_string());
    }
}

#[test]
fn strings_are_taken_apart_and_put_together() {
    let chars = chars_of("aé\u{1F600}z");
    assert_eq!(chars, vec!['a', 'é', '\u{1F600}', 'z']);
    assert_eq!(string_of(&chars, 0, 4), "aé\u{1F600}z");
    assert_eq!(string_of(&chars, 1, 3), "é\u{1F600}");
    assert_eq!(string_of(&chars, 2, 2), "");
    assert_eq!(chars_of(""), Vec::<char>::new());
}

#[test]
fn strings_are_ordered_by_code_points() {
    assert_eq!(compare("", ""), Order::Equal);
    assert_eq!(compare("", "a"), Order::Less);
    assert_eq!(compare("a", ""), Order::Greater);
    assert_eq!(compare("abc", "abd"), Order::Less);
    assert_eq!(compare("abc", "ab"), Order::Greater);
    assert_eq!(compare("Z", "a"), Order::Less);
    assert_eq!(compare("z", "é"), Order::Less);
    assert_eq!(compare("\u{ffff}", "\u{10000}"), Order::Less);
    assert_eq!(compare("same", "same"), Order::Equal);
    for (a, b) in [("x", "y"), ("é", "e"), ("", "q"), ("ab", "ab"), ("\u{e000}", "\u{1F600}")] {
        let expected = match a.cmp(b) {
            std::cmp::Ordering::Less => Order::Less,
            std::cmp::Ordering::Equal => Order::Equal,
            std::cmp::Ordering::Greater => Order::Greater,
        };
        assert_eq!(compare(a, b), expected);
    }
    assert!(same_text("help", "help"));
    assert!(!same_text("help", "helps"));
    assert!(!same_text("help", "Help"));
}

#[test]
fn white_space_is_what_unicode_says() {
    for code in 0..0x11000u32 {
        if let Some(c) = char::from_u32(code) {
            assert_eq!(white_space(c), c.is_whitespace(), "U+{:04X}", code);
        }
    }
}

#[test]
fn white_space_at_the_end_is_trimmed() {
    assert_eq!(trim_end_string("a b \t\n\u{a0}\u{3000}"), "a b");
    assert_eq!(trim_end_string("  a"), "  a");
    assert_eq!(trim_end_string(" \n "), "");
    assert_eq!(trim_end_string(""), "");
    for s in ["x\r\n", " y z ", "\u{2003}w\u{2003}", "é"] {
        assert_eq!(trim_end_string(s), s.trim_end());
    }
}

#[test]
fn lines_are_cut_at_line_feeds() {
    assert_eq!(lines_of(""), Vec::<String>::new());
    assert_eq!(lines_of("a"), vec!["a"]);
    assert_eq!(lines_of("a\n"), vec!["a"]);
    assert_eq!(lines_of("a\nb"), vec!["a", "b"]);
    assert_eq!(lines_of("a\r\nb\r\n"), vec!["a", "b"]);
    assert_eq!(lines_of("\n"), vec![""]);
    assert_eq!(lines_of("\n\n"), vec!["", ""]);
    assert_eq!(lines_of("a\n\nb"), vec!["a", "", "b"]);
    assert_eq!(lines_of("a\rb"), vec!["a\rb"]);
    assert_eq!(lines_of("a\r"), vec!["a\r"]);
    assert_eq!(lines_of("a\r\r\nb"), vec!["a\r", "b"]);
    assert_eq!(lines_of("\r\n"), vec![""]);
    for s in ["x\ny\r\nz", "\r", "\n\r\n\r", "one", "é\n\u{1F600}\n", "a\r\n\r\n"] {
        let expected: Vec<String> = s.lines().map(|l| l.to_string()).collect();
        assert_eq!(lines_of(s), expected, "{:?}", s);
    }
}

#[test]
fn a_table_keeps_its_names_in_order() {
    let mut table: NameTable<String> = NameTable::new();
    assert_eq!(table.len(), 0);
    assert_eq!(table.get("a"), None);
    for name in ["m", "b", "z", "a", "mm", "B"] {
        table.set(name.to_string(), name.to_uppercase());
    }
    let names: Vec<String> = (0..table.len()).map(|i| table.name_at(i).clone()).collect();
    assert_eq!(names, vec!["B", "a", "b", "m", "mm", "z"]);
    assert_eq!(table.get("mm"), Some(&"MM".to_string()));
    assert_eq!(table.get("n"), None);
    assert!(table.contains("z"));
    assert!(!table.contains(""));
    table.set("m".to_string(), "again".to_string());
    assert_eq!(table.len(), 6);
    assert_eq!(table.get("m"), Some(&"again".to_string()));
    assert_eq!(table.value_at(3), "again");
}

#[test]
fn values_are_copied_and_compared_by_what_they_hold() {
    let nested = Value::Mapping(vec![
        (Value::String("k".to_string()), Value::Mapping(vec![(Value::Int(1), Value::Bool(false))])),
        (Value::Function(Function::AddBuiltin), Value::Int(-2)),
    ]);
    let copy = clone_value(&nested);
    assert!(values_equal(&nested, &copy));
    assert_eq!(nested.clone(), nested);
    let other = Value::Mapping(vec![
        (Value::String("k".to_string()), Value::Mapping(vec![(Value::Int(1), Value::Bool(true))])),
        (Value::Function(Function::AddBuiltin), Value::Int(-2)),
    ]);
    assert!(!values_equal(&nested, &other));
    assert!(!values_equal(&nested, &Value::Mapping(vec![])));
    assert!(!values_equal(&Value::Int(0), &Value::Bool(false)));
    assert!(!values_equal(&Value::String("1".to_string()), &Value::Int(1)));
}

#[test]
fn values_are_rendered() {
    assert_eq!(debug_string(&Value::String("a\"b\n".to_string())), "String(\"a\\\"b\\n\")");
    assert_eq!(debug_string(&Value::Int(-5)), "Int(-5)");
    assert_eq!(debug_string(&Value::Bool(false)), "Bool(false)");
    assert_eq!(debug_string(&Value::Function(Function::ChrBuiltin)), "Function(ChrBuiltin)");
    assert_eq!(debug_string(&Value::Mapping(vec![])), "Map({})");
    assert_eq!(
        debug_string(&Value::Mapping(vec![
            (Value::Int(1), Value::Int(2)),
            (Value::Int(3), Value::String("x".to_string())),
        ])),
        "Map({Int(1): Int(2), Int(3): String(\"x\")})"
    );
    assert_eq!(show_string(&Value::Mapping(vec![])), "{}");
    assert_eq!(show_string(&Value::Int(i128::MIN)), i128::MIN.to_string());
    for f in [
        Function::AddBuiltin,
        Function::EqBuiltin,
        Function::NotBuiltin,
        Function::PrintBuiltin,
        Function::ShowBuiltin,
        Function::ChrBuiltin,
        Function::CatBuiltin,
    ] {
        assert_eq!(f.name(), format!("{:?}", f));
    }
}

#[test]
fn renderings_are_tagged() {
    assert_eq!(tagged("Int", "5"), "Int(5)");
    assert_eq!(tagged("", ""), "()");
    assert_eq!(tagged("String", "\"a(b)\""), "String(\"a(b)\")");
}

#[test]
fn trees_are_copied() {
    let tree = Program {
        block: Block(vec![
            Expr::While(While {
                cond: Box::new(Expr::Ref(Ref::VarRef("go".to_string()))),
                body: Block(vec![Expr::Assignment(Assignment {
                    target: Ref::CommentRef("c".to_string()),
                    value: Box::new(Expr::Comment(Comment {
                        name: Some("c".to_string()),
                        body: "b".to_string(),
                    })),
                })]),
            }),
            Expr::If(If {
                cond: Box::new(Expr::IntLiteral(3)),
                body: Block(vec![Expr::FunctionCall(FunctionCall {
                    target: Ref::VarRef("f".to_string()),
                    args: vec![Expr::Block(Block(vec![]))],
                })]),
            }),
        ]),
    };
    assert_eq!(tree.clone(), tree);
    assert_eq!(tree.block.clone(), tree.block);
    assert_eq!(tree.block.0[0].clone(), tree.block.0[0]);
}
