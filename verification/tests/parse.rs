use executor::codemode::ast::{Expr, Stmt};
use executor::codemode::parse::parse;
use executor::codemode::CodeError;
use executor::json::JsonValue;

fn ident(s: &str) -> Expr {
    Expr::Ident(s.to_owned())
}

#[test]
fn parses_compiled_call() {
    let program = parse("return await tools[\"echo.org.work.ping\"]({ n: 1, s: \"x\" });").unwrap();
    let call = Expr::Call {
        callee: Box::new(Expr::Index {
            object: Box::new(ident("tools")),
            index: Box::new(Expr::Literal(JsonValue::Text("echo.org.work.ping".into()))),
        }),
        args: vec![Expr::Object(vec![
            ("n".into(), Expr::Literal(JsonValue::Number("1".into()))),
            ("s".into(), Expr::Literal(JsonValue::Text("x".into()))),
        ])],
    };
    assert_eq!(program, vec![Stmt::Return(Expr::Await(Box::new(call)))]);
}

#[test]
fn parses_bindings_members_and_arrays() {
    let program = parse("let a = [1, -2, 0.5, true, null]\nconst b = a.c[0]; b").unwrap();
    assert_eq!(program.len(), 3);
    assert_eq!(
        program[0],
        Stmt::Let {
            name: "a".into(),
            expr: Expr::Array(vec![
                Expr::Literal(JsonValue::Number("1".into())),
                Expr::Literal(JsonValue::Number("-2".into())),
                Expr::Literal(JsonValue::Number("0.5".into())),
                Expr::Literal(JsonValue::Bool(true)),
                Expr::Literal(JsonValue::Null),
            ]),
        }
    );
    assert_eq!(
        program[1],
        Stmt::Let {
            name: "b".into(),
            expr: Expr::Index {
                object: Box::new(Expr::Member { object: Box::new(ident("a")), prop: "c".into() }),
                index: Box::new(Expr::Literal(JsonValue::Number("0".into()))),
            },
        }
    );
    assert_eq!(program[2], Stmt::Expr(ident("b")));
}

#[test]
fn numbers_are_normalized() {
    let program = parse("[007, -0, 1., 99999999999999999999]").unwrap();
    assert_eq!(
        program,
        vec![Stmt::Expr(Expr::Array(vec![
            Expr::Literal(JsonValue::Number("7".into())),
            Expr::Literal(JsonValue::Number("0".into())),
            Expr::Literal(JsonValue::Number("1.0".into())),
            Expr::Literal(JsonValue::Number("1e+20".into())),
        ]))]
    );
    assert_eq!(parse("1.2.3"), Err(CodeError("invalid number 1.2.3".into())));
}

#[test]
fn grammar_errors() {
    assert_eq!(parse("let = 1"), Err(CodeError("expected binding name".into())));
    assert_eq!(parse("a."), Err(CodeError("expected property name".into())));
    assert_eq!(parse("f(1"), Err(CodeError("expected RParen".into())));
    assert_eq!(parse("{ 1: 2 }"), Err(CodeError("expected object key, got Number(\"1\")".into())));
    assert_eq!(parse(")"), Err(CodeError("unexpected token RParen".into())));
    assert_eq!(parse("[1, 2"), Err(CodeError("expected RBrack".into())));
    assert_eq!(parse("let x 1"), Err(CodeError("expected Eq".into())));
    let many = "1;".repeat(257);
    assert_eq!(parse(&many), Err(CodeError("too many statements".into())));
    assert_eq!(parse(&"1;".repeat(256)).map(|p| p.len()), Ok(256));
    assert_eq!(parse("// only a comment"), Ok(vec![]));
}
