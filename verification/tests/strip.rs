use executor::codemode::strip::{strip_typescript, StripFail};

#[test]
fn removes_variable_annotations() {
    let out = strip_typescript(r#"const x: string = "hello"; return x;"#).unwrap();
    assert!(!out.contains(": string"));
    assert!(out.contains("const x"));
    assert!(out.contains("\"hello\""));
}

#[test]
fn removes_function_param_and_return_types() {
    let out = strip_typescript("function f(x: number): number { return x + 1; } return f(5);").unwrap();
    assert!(!out.contains(": number"));
}

#[test]
fn removes_as_casts() {
    let out = strip_typescript("const x = (1 as number) + 2; return x;").unwrap();
    assert!(!out.contains("as number"));
}

#[test]
fn removes_generic_type_arguments_on_calls() {
    let out = strip_typescript("const arr = Array.from<string>([]); return arr;").unwrap();
    assert!(!out.contains("<string>"));
}

#[test]
fn removes_interface_declarations() {
    let out = strip_typescript("interface User { name: string; } const u = { name: 'a' }; return u;").unwrap();
    assert!(!out.contains("interface User"));
    assert!(!out.contains(": string"));
}

#[test]
fn removes_type_aliases() {
    let out = strip_typescript("type Foo = string; const x = 'a'; return x;").unwrap();
    assert!(!out.contains("type Foo"));
}

#[test]
fn preserves_object_literal_values() {
    let out = strip_typescript("return { n: 4, doubled: ping.n * 2 };").unwrap();
    assert!(out.contains("n: 4"), "{out}");
    assert!(out.contains("ping.n * 2"), "{out}");
}

#[test]
fn preserves_plain_javascript() {
    let out = strip_typescript("const x = 5; return x * 2;").unwrap();
    assert!(out.contains("const x = 5"));
}

#[test]
fn rejects_bare_const() {
    assert!(strip_typescript("const = 5;").is_err());
}

#[test]
fn regression_promise_annotation() {
    let code = r"
      const fetchResources = async (sourceId: string): Promise<Array<{ id: string }>> => {
        const result = await tools.executor.integrations.list();
        return result.items;
      };
      return fetchResources('example-source');
    ";
    let out = strip_typescript(code).unwrap();
    assert!(!out.contains(": string"));
    assert!(!out.contains("Promise<"));
}

#[test]
fn exact_outputs() {
    assert_eq!(strip_typescript("const x: number = 1;").unwrap(), "const x= 1;");
    assert_eq!(strip_typescript("let y = z as Foo;").unwrap(), "let y = z ;");
    assert_eq!(strip_typescript("f<T>(1)").unwrap(), "f(1)");
    assert_eq!(strip_typescript("o = { k: 1 }").unwrap(), "o = { k: 1 }");
}

#[test]
fn comments_and_strings_are_copied_verbatim() {
    let src = "// x: number\n/* y: string */ 'a: b' `t ${ {k: 1} } u`";
    assert_eq!(strip_typescript(src).unwrap(), src);
}

#[test]
fn error_messages() {
    assert_eq!(strip_typescript("let = 1").unwrap_err().0, "invalid TypeScript/JavaScript syntax");
    assert_eq!(strip_typescript("return 'abc").unwrap_err().0, "unterminated string");
    assert_eq!(strip_typescript("const x: { a: 1 = 2").unwrap_err().0, "unclosed type construct");
    assert_eq!(strip_typescript("interface Foo = 1").unwrap_err().0, "invalid interface declaration");
    assert_eq!(StripFail::InvalidTypeAlias.message(), "invalid type alias");
    assert_eq!(StripFail::ExpectedDelimiter.message(), "expected type delimiter");
}

fn is_subsequence(out: &str, source: &str) -> bool {
    let mut rest = source.chars();
    out.chars().all(|c| rest.any(|s| s == c))
}

#[test]
fn stripping_only_deletes() {
    let src = "interface A { x: number }\nconst f = (a: string, b?: number): void => g<string>(a as any);\nreturn f('x: y', 1);";
    let out = strip_typescript(src).unwrap();
    assert!(is_subsequence(&out, src), "{out}");
    assert!(out.len() < src.len());
    assert!(out.contains("'x: y'"));
}
