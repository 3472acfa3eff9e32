use executor::codemode::recover::{recover_execution_body, wrap_callable, CALLABLE_ERROR};

#[test]
fn wraps_async_arrow() {
    let src = "async () => { return 1; }";
    assert_eq!(recover_execution_body(src), wrap_callable(src));
}

#[test]
fn wraps_async_arrow_with_params() {
    let src = "async (x) => x + 1";
    assert_eq!(recover_execution_body(src), wrap_callable(src));
}

#[test]
fn strips_export_default_arrow() {
    assert_eq!(
        recover_execution_body("export default async () => 42"),
        wrap_callable("async () => 42")
    );
}

#[test]
fn leaves_bare_expression() {
    assert_eq!(recover_execution_body("1 + 2"), "1 + 2");
}

#[test]
fn wraps_named_function() {
    let src = "function hello() { return 42; }";
    assert_eq!(
        recover_execution_body(src),
        "function hello() { return 42; }\nreturn await hello();"
    );
}

#[test]
fn wraps_async_function_declaration() {
    let src = "async function run() { return 'ok'; }";
    assert_eq!(
        recover_execution_body(src),
        "async function run() { return 'ok'; }\nreturn await run();"
    );
}

#[test]
fn wraps_exported_named_async_function() {
    assert_eq!(
        recover_execution_body("export default async function run() { return 'ok'; }"),
        "async function run() { return 'ok'; }\nreturn await run();"
    );
}

#[test]
fn wraps_exported_anonymous_async_function() {
    assert_eq!(
        recover_execution_body("export default async function () { return 'ok'; }"),
        "return await (async function () { return 'ok'; })();"
    );
}

#[test]
fn strips_markdown_fences() {
    assert_eq!(
        recover_execution_body("```js\nasync () => 42\n```"),
        wrap_callable("async () => 42")
    );
    assert_eq!(
        recover_execution_body("```typescript\nasync () => 42\n```"),
        wrap_callable("async () => 42")
    );
    assert_eq!(
        recover_execution_body("```TypeScript\nasync () => 42\n```"),
        wrap_callable("async () => 42")
    );
}

#[test]
fn empty_and_whitespace() {
    assert_eq!(recover_execution_body(""), "");
    assert_eq!(recover_execution_body("   \n  "), "");
}

#[test]
fn keeps_multi_statement() {
    let code = "const a = 1;\nconst b = 2;\na + b";
    assert_eq!(recover_execution_body(code), code);
}

#[test]
fn parenthesized_arrow_from_fence() {
    assert_eq!(
        recover_execution_body("```ts\n(async () => 42)\n```"),
        wrap_callable("(async () => 42)")
    );
}

#[test]
fn strips_export_default_parenthesized_arrow() {
    assert_eq!(
        recover_execution_body("export default (async () => 42)"),
        wrap_callable("async () => 42")
    );
}

#[test]
fn wraps_anonymous_function_from_fence() {
    assert_eq!(
        recover_execution_body("```javascript\nfunction () { return 42; }\n```"),
        "return await (function () { return 42; })();"
    );
}

#[test]
fn keeps_body_that_already_returns() {
    let code = "const query = \"github issues\";\nreturn await tools.search({ query, limit: 5 });";
    assert_eq!(recover_execution_body(code), code);
}

#[test]
fn extracts_fenced_body_from_prose() {
    let code = "Sure, here's the code:\n\n```ts\nasync () => 42\n```";
    assert_eq!(recover_execution_body(code), wrap_callable("async () => 42"));
}

#[test]
fn named_function_with_leading_comments() {
    let code = "// top-level helper the model wanted to keep\nasync function run() {\n  return \"ok\";\n}";
    assert_eq!(
        recover_execution_body(code),
        format!("{code}\nreturn await run();")
    );
}

#[test]
fn leading_comments_before_arrow_wrap_original() {
    let code = "// calling tools.search\nasync () => await tools.search({ query: \"x\" })";
    assert_eq!(recover_execution_body(code), wrap_callable(code));
}

#[test]
fn block_comment_before_export_default() {
    let code = "/* generated by the model */\nexport default async () => 42";
    assert_eq!(recover_execution_body(code), wrap_callable("async () => 42"));
}

#[test]
fn extracts_prose_before_and_after_fence() {
    let code = [
        "Use this exact snippet.",
        "",
        "```javascript",
        "return await tools.search({ query: \"github issues\", limit: 5 });",
        "```",
        "",
        "That should do it.",
    ]
    .join("\n");
    assert_eq!(
        recover_execution_body(&code),
        "return await tools.search({ query: \"github issues\", limit: 5 });"
    );
}

#[test]
fn wrap_callable_exact_text() {
    assert_eq!(
        wrap_callable("x"),
        "const __fn = (\nx\n);\nif (typeof __fn !== \"function\") throw new Error(\"Code must evaluate to a function\");\nreturn await __fn();"
    );
    assert_eq!(CALLABLE_ERROR, "Code must evaluate to a function");
}

#[test]
fn unclosed_block_comment_leaves_source_unwrapped() {
    assert_eq!(recover_execution_body("/* open\nasync () => 1"), "/* open\nasync () => 1");
}

#[test]
fn fence_without_close_is_kept_whole() {
    assert_eq!(recover_execution_body("```js\n1 + 2"), "```js\n1 + 2");
}

#[test]
fn async_glued_to_function_is_not_a_head() {
    assert_eq!(recover_execution_body("asyncfunction f() {}"), "asyncfunction f() {}");
}
