//! Compact TypeScript from a JSON Schema subset (how `describe.tool` shows an input).

use vstd::prelude::*;
use crate::json::{JsonValue, member_from, json_member, member_index, lemma_member_index, json_member_index};
use crate::text::{copy_str, push_str, push_char, str_eq, to_chars};
use crate::catalog::call::json_get;
use crate::catalog::yaml::{strings_of, text_member};

verus! {

/// `s` with each `"` written `\"`.
pub open spec fn escape_quotes(s: Seq<char>) -> Seq<char>
    decreases s.len(),
{
    if s.len() == 0 {
        Seq::empty()
    } else {
        escape_quotes(s.drop_last()) + if s.last() == '"' {
            seq!['\\', '"']
        } else {
            seq![s.last()]
        }
    }
}

/// A value as a TypeScript literal type.
pub open spec fn ts_literal(v: JsonValue) -> Seq<char> {
    match v {
        JsonValue::Text(s) => "\""@ + escape_quotes(s@) + "\""@,
        JsonValue::Number(t) => t@,
        JsonValue::Bool(b) => if b {
            "true"@
        } else {
            "false"@
        },
        JsonValue::Null => "null"@,
        _ => "unknown"@,
    }
}

/// Parts joined by `sep`.
pub open spec fn joined_by(parts: Seq<Seq<char>>, sep: Seq<char>) -> Seq<char>
    decreases parts.len(),
{
    if parts.len() == 0 {
        Seq::empty()
    } else if parts.len() == 1 {
        parts[0]
    } else {
        joined_by(parts.drop_last(), sep) + sep + parts.last()
    }
}

/// The literals of a list of values.
pub open spec fn literals(vals: Seq<JsonValue>) -> Seq<Seq<char>> {
    vals.map_values(|v: JsonValue| ts_literal(v))
}

/// The TypeScript type of `schema` at nesting `depth` (beyond 8 levels: `unknown`): an
/// `enum` as a union of literals (`never` when empty), a `const` as its literal, then by
/// `type`: primitives, `T[]` for arrays, and objects (no type counts as object) as
/// `{ name: T; opt?: T }` with the properties in order, `?` on those not required.
pub open spec fn ts_render(schema: JsonValue, depth: nat) -> Seq<char>
    decreases 9 - depth, 1nat, 0nat,
{
    if depth > 8 {
        "unknown"@
    } else {
        match schema {
            JsonValue::Object(obj) => match member_from(obj@, "enum"@, 0) {
                Some(JsonValue::Array(vals)) => if vals.len() == 0 {
                    "never"@
                } else {
                    joined_by(literals(vals@), " | "@)
                },
                _ => match member_from(obj@, "const"@, 0) {
                    Some(c) => ts_literal(c),
                    None => {
                        let ty = match member_from(obj@, "type"@, 0) {
                            Some(JsonValue::Text(t)) => t@,
                            _ => Seq::empty(),
                        };
                        if ty == "string"@ {
                            "string"@
                        } else if ty == "number"@ || ty == "integer"@ {
                            "number"@
                        } else if ty == "boolean"@ {
                            "boolean"@
                        } else if ty == "null"@ {
                            "null"@
                        } else if ty == "array"@ {
                            let inner = match member_from(obj@, "items"@, 0) {
                                Some(i) => ts_render(i, depth + 1),
                                None => "unknown"@,
                            };
                            inner + "[]"@
                        } else if ty == "object"@ || ty.len() == 0 {
                            match member_from(obj@, "properties"@, 0) {
                                Some(JsonValue::Object(props)) => if props.len() == 0 {
                                    "Record<string, unknown>"@
                                } else {
                                    let req = match member_from(obj@, "required"@, 0) {
                                        Some(JsonValue::Array(r)) => strings_of(r@),
                                        _ => Seq::empty(),
                                    };
                                    "{ "@ + joined_by(ts_fields(props@, req, depth, 0), "; "@) + " }"@
                                },
                                _ => if member_from(obj@, "additionalProperties"@, 0) is Some {
                                    "{ [k: string]: unknown }"@
                                } else {
                                    "Record<string, unknown>"@
                                },
                            }
                        } else {
                            "unknown"@
                        }
                    },
                },
            },
            _ => "unknown"@,
        }
    }
}

/// The fields of properties from `k` on: `name: T`, or `name?: T` when not required.
pub open spec fn ts_fields(props: Seq<(String, JsonValue)>, req: Seq<Seq<char>>, depth: nat, k: int) -> Seq<Seq<char>>
    decreases 9 - depth, 0nat, props.len() - k,
{
    if k < 0 || k >= props.len() || depth > 8 {
        Seq::empty()
    } else {
        let opt = if req.contains(props[k].0@) {
            Seq::empty()
        } else {
            "?"@
        };
        seq![props[k].0@ + opt + ": "@ + ts_render(props[k].1, depth + 1)] + ts_fields(props, req, depth, k + 1)
    }
}


fn literal(v: &JsonValue) -> (r: String)
    ensures
        r@ == ts_literal(*v),
{
    match v {
        JsonValue::Text(s) => {
            let c = to_chars(s.as_str());
            let mut out = copy_str("\"");
            let ghost head = out@;
            let mut k: usize = 0;
            while k < c.len()
                invariant
                    k <= c@.len(),
                    c@ == s@,
                    out@ == head + escape_quotes(c@.take(k as int)),
                decreases c.len() - k,
            {
                proof {
                    assert(c@.take(k + 1).drop_last() =~= c@.take(k as int));
                }
                if c[k] == '"' {
                    push_char(&mut out, '\\');
                    push_char(&mut out, '"');
                } else {
                    push_char(&mut out, c[k]);
                }
                proof {
                    assert(out@ =~= head + escape_quotes(c@.take(k + 1)));
                }
                k += 1;
            }
            assert(c@.take(c@.len() as int) =~= c@);
            push_str(&mut out, "\"");
            out
        },
        JsonValue::Number(t) => copy_str(t.as_str()),
        JsonValue::Bool(b) => if *b {
            copy_str("true")
        } else {
            copy_str("false")
        },
        JsonValue::Null => copy_str("null"),
        _ => copy_str("unknown"),
    }
}

fn strings_exec(items: &Vec<JsonValue>) -> (r: Vec<String>)
    ensures
        r@.map_values(|s: String| s@) == strings_of(items@),
{
    let mut out: Vec<String> = Vec::new();
    let mut k: usize = 0;
    while k < items.len()
        invariant
            k <= items@.len(),
            out@.map_values(|s: String| s@) == strings_of(items@.take(k as int)),
        decreases items.len() - k,
    {
        proof {
            assert(items@.take(k + 1).drop_last() =~= items@.take(k as int));
            assert(items@.take(k + 1).last() == items@[k as int]);
        }
        if let JsonValue::Text(s) = &items[k] {
            let ghost before = out@;
            out.push(copy_str(s.as_str()));
            assert(out@.map_values(|s: String| s@) =~= before.map_values(|s: String| s@).push(s@));
        }
        k += 1;
    }
    assert(items@.take(items@.len() as int) =~= items@);
    out
}

fn contains_text(v: &Vec<String>, s: &str) -> (r: bool)
    ensures
        r == v@.map_values(|x: String| x@).contains(s@),
{
    let ghost m = v@.map_values(|x: String| x@);
    let mut k: usize = 0;
    while k < v.len()
        invariant
            k <= v@.len(),
            m == v@.map_values(|x: String| x@),
            forall|i: int| 0 <= i < k ==> m[i] != s@,
        decreases v.len() - k,
    {
        if str_eq(v[k].as_str(), s) {
            assert(m[k as int] == s@);
            return true;
        }
        k += 1;
    }
    false
}

/// The TypeScript type of `schema` at nesting `depth` (see `ts_render`).
fn render(schema: &JsonValue, depth: usize) -> (r: String)
    ensures
        r@ == ts_render(*schema, depth as nat),
    decreases 9 - depth,
{
    if depth > 8 {
        return copy_str("unknown");
    }
    let obj = match schema {
        JsonValue::Object(o) => o,
        _ => {
            return copy_str("unknown");
        },
    };
    if let Some(JsonValue::Array(vals)) = json_member(obj, "enum") {
        if vals.len() == 0 {
            return copy_str("never");
        }
        let mut out = literal(&vals[0]);
        let mut k: usize = 1;
        assert(literals(vals@).take(1) =~= seq![ts_literal(vals@[0])]);
        while k < vals.len()
            invariant
                1 <= k <= vals@.len(),
                out@ == joined_by(literals(vals@).take(k as int), " | "@),
            decreases vals.len() - k,
        {
            proof {
                assert(literals(vals@).take(k + 1).drop_last() =~= literals(vals@).take(k as int));
            }
            push_str(&mut out, " | ");
            let l = literal(&vals[k]);
            push_str(&mut out, l.as_str());
            k += 1;
        }
        assert(literals(vals@).take(vals@.len() as int) =~= literals(vals@));
        return out;
    }
    if let Some(c) = json_member(obj, "const") {
        return literal(c);
    }
    let ty = match json_member(obj, "type") {
        Some(JsonValue::Text(t)) => copy_str(t.as_str()),
        _ => String::new(),
    };
    let t = ty.as_str();
    if str_eq(t, "string") {
        copy_str("string")
    } else if str_eq(t, "number") || str_eq(t, "integer") {
        copy_str("number")
    } else if str_eq(t, "boolean") {
        copy_str("boolean")
    } else if str_eq(t, "null") {
        copy_str("null")
    } else if str_eq(t, "array") {
        let mut inner = match json_member(obj, "items") {
            Some(i) => render(i, depth + 1),
            None => copy_str("unknown"),
        };
        push_str(&mut inner, "[]");
        inner
    } else if str_eq(t, "object") || to_chars(t).len() == 0 {
        render_object(obj, depth, Ghost(*schema))
    } else {
        copy_str("unknown")
    }
}

fn render_object(obj: &Vec<(String, JsonValue)>, depth: usize, Ghost(schema): Ghost<JsonValue>) -> (r: String)
    requires
        depth <= 8,
    ensures
        r@ == match member_from(obj@, "properties"@, 0) {
            Some(JsonValue::Object(props)) => if props.len() == 0 {
                "Record<string, unknown>"@
            } else {
                let req = match member_from(obj@, "required"@, 0) {
                    Some(JsonValue::Array(r)) => strings_of(r@),
                    _ => Seq::empty(),
                };
                "{ "@ + joined_by(ts_fields(props@, req, depth as nat, 0), "; "@) + " }"@
            },
            _ => if member_from(obj@, "additionalProperties"@, 0) is Some {
                "{ [k: string]: unknown }"@
            } else {
                "Record<string, unknown>"@
            },
        },
    decreases 9 - depth, 0nat,
{
    let props = match json_member(obj, "properties") {
        Some(JsonValue::Object(p)) => p,
        _ => {
            return if json_member(obj, "additionalProperties").is_some() {
                copy_str("{ [k: string]: unknown }")
            } else {
                copy_str("Record<string, unknown>")
            };
        },
    };
    if props.len() == 0 {
        return copy_str("Record<string, unknown>");
    }
    let required = match json_member(obj, "required") {
        Some(JsonValue::Array(r)) => strings_exec(r),
        _ => {
            let v: Vec<String> = Vec::new();
            assert(v@.map_values(|s: String| s@) =~= Seq::<Seq<char>>::empty());
            v
        },
    };
    let ghost req = required@.map_values(|s: String| s@);
    assert(req == match member_from(obj@, "required"@, 0) {
        Some(JsonValue::Array(r)) => strings_of(r@),
        _ => Seq::empty(),
    });
    let ghost fields = ts_fields(props@, req, depth as nat, 0);
    let mut out = copy_str("{ ");
    let ghost head = out@;
    let mut k: usize = 0;
    proof {
        lemma_fields_len(props@, req, depth as nat, 0);
        assert(fields.take(0) =~= Seq::<Seq<char>>::empty());
    }
    while k < props.len()
        invariant
            k <= props@.len(),
            depth <= 8,
            req == required@.map_values(|s: String| s@),
            fields == ts_fields(props@, req, depth as nat, 0),
            fields.len() == props@.len(),
            out@ == head + joined_by(fields.take(k as int), "; "@),
        decreases props.len() - k,
    {
        proof {
            lemma_fields_at(props@, req, depth as nat, 0, k as int);
            assert(fields.take(k + 1).drop_last() =~= fields.take(k as int));
        }
        if k > 0 {
            push_str(&mut out, "; ");
        }
        let mut f = copy_str(props[k].0.as_str());
        if !contains_text(&required, props[k].0.as_str()) {
            push_str(&mut f, "?");
        }
        push_str(&mut f, ": ");
        let sub = render(&props[k].1, depth + 1);
        push_str(&mut f, sub.as_str());
        push_str(&mut out, f.as_str());
        proof {
            if k == 0 {
                assert(fields.take(1) =~= seq![fields[0]]);
            }
        }
        k += 1;
    }
    assert(fields.take(fields.len() as int) =~= fields);
    push_str(&mut out, " }");
    out
}

proof fn lemma_fields_len(props: Seq<(String, JsonValue)>, req: Seq<Seq<char>>, depth: nat, k: int)
    requires
        0 <= k <= props.len(),
        depth <= 8,
    ensures
        ts_fields(props, req, depth, k).len() == props.len() - k,
    decreases props.len() - k,
{
    if k < props.len() {
        lemma_fields_len(props, req, depth, k + 1);
    }
}

proof fn lemma_fields_at(props: Seq<(String, JsonValue)>, req: Seq<Seq<char>>, depth: nat, k: int, i: int)
    requires
        0 <= k <= i < props.len(),
        depth <= 8,
    ensures
        ts_fields(props, req, depth, k)[i - k] == props[i].0@ + (if req.contains(props[i].0@) {
            Seq::<char>::empty()
        } else {
            "?"@
        }) + ": "@ + ts_render(props[i].1, depth + 1),
    decreases i - k,
{
    lemma_fields_len(props, req, depth, k + 1);
    if k < i {
        lemma_fields_at(props, req, depth, k + 1, i);
    }
}

/// Render a JSON Schema as a compact TypeScript type string.
pub fn json_schema_to_typescript(schema: &JsonValue) -> (r: String)
    ensures
        r@ == ts_render(*schema, 0),
{
    render(schema, 0)
}

} // verus!
