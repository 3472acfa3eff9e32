//! Provider documents in YAML: a `provider` slug and its `endpoints`, or a bare list of
//! endpoints. Extra fields are ignored. The document is read into a `JsonValue` first; the
//! published USD price is turned into micro-USD by the caller (it is a floating-point
//! computation), everything else happens here.

use vstd::prelude::*;
use crate::json::{JsonValue, JView, jview, json_member, lemma_array_view, lemma_object_view};
use crate::text::{copy_str, push_str, str_eq, to_chars, lower_chars, from_chars, spec_lower, lex_lt, lex_order_str};
use crate::search::{all_digits, digits_value, parse_digits};
use super::{Access, Endpoint, texts, opt_text};
use super::call::{json_get, text_is, keys_are, member_at, or_text};

verus! {

/// A YAML document as plain values. Numbers keep the text the crate writes for them;
/// mapping entries keep their order and keys of every kind.
#[derive(Debug, PartialEq)]
pub enum YamlValue {
    /// `null` / `~`.
    Null,
    /// `true` / `false`.
    Bool(bool),
    /// A number, as `serde_yaml::Number` writes it.
    Number(String),
    /// A string.
    Text(String),
    /// A sequence.
    Sequence(Vec<YamlValue>),
    /// A mapping: entries in order.
    Mapping(Vec<(YamlValue, YamlValue)>),
}

/// What `serde_yaml::from_str::<serde_yaml::Value>` makes of `text`, as a `YamlValue`, or
/// the text of the parse error.
pub uninterp spec fn yaml_parse(text: Seq<char>) -> Result<YamlValue, Seq<char>>;

/// `serde_yaml::from_str::<serde_yaml::Value>(text)`, converted entry for entry (a tag is
/// dropped for the value it tags, as the crate's own accessors do); the error's
/// `to_string()` when the text is not YAML.
#[verifier::external_body]
pub fn parse_yaml(text: &str) -> (r: Result<YamlValue, String>)
    ensures
        match r {
            Ok(v) => yaml_parse(text@) == Ok::<YamlValue, Seq<char>>(v),
            Err(m) => yaml_parse(text@) == Err::<YamlValue, Seq<char>>(m@),
        },
{
    match serde_yaml::from_str::<serde_yaml::Value>(text) {
        Ok(v) => Ok(from_yaml_value(&v)),
        Err(e) => Err(e.to_string()),
    }
}

#[verifier::external_type_specification]
#[verifier::external_body]
pub struct ExYamlValue(serde_yaml::Value);

/// One-for-one conversion of a `serde_yaml::Value`; a tag is dropped for the value it tags.
#[verifier::external_body]
fn from_yaml_value(v: &serde_yaml::Value) -> YamlValue {
    match v {
        serde_yaml::Value::Null => YamlValue::Null,
        serde_yaml::Value::Bool(b) => YamlValue::Bool(*b),
        serde_yaml::Value::Number(n) => YamlValue::Number(n.to_string()),
        serde_yaml::Value::String(s) => YamlValue::Text(s.clone()),
        serde_yaml::Value::Sequence(a) => YamlValue::Sequence(a.iter().map(from_yaml_value).collect()),
        serde_yaml::Value::Mapping(m) => YamlValue::Mapping(
            m.iter().map(|(k, x)| (from_yaml_value(k), from_yaml_value(x))).collect(),
        ),
        serde_yaml::Value::Tagged(t) => from_yaml_value(&t.value),
    }
}

/// How far `yaml_view` still has to look into `v`.
pub open spec fn yaml_width(v: YamlValue) -> int {
    match v {
        YamlValue::Mapping(ms) => ms@.len() as int + 1,
        _ => 0,
    }
}

/// A YAML document as the JSON the catalog reads: mappings keep the entries whose key is a
/// string (no lookup by name reaches the others).
pub open spec fn yaml_view(v: YamlValue) -> JView
    decreases v, yaml_width(v),
{
    match v {
        YamlValue::Null => JView::Null,
        YamlValue::Bool(b) => JView::Bool(b),
        YamlValue::Number(t) => JView::Number(t@),
        YamlValue::Text(t) => JView::Text(t@),
        YamlValue::Sequence(xs) => JView::Array(
            Seq::new(
                xs@.len(),
                |i: int|
                    if 0 <= i < xs@.len() {
                        proof {
                            vstd::std_specs::vec::axiom_vec_index_decreases(xs, i);
                            assert(decreases_to!(v => v->Sequence_0));
                        }
                        yaml_view(xs@[i])
                    } else {
                        JView::Null
                    },
            ),
        ),
        YamlValue::Mapping(_) => JView::Object(yaml_members(v, 0)),
    }
}

/// The string-keyed entries of mapping `parent` from `k` on.
pub open spec fn yaml_members(parent: YamlValue, k: int) -> Seq<(Seq<char>, JView)>
    decreases parent, (match parent {
        YamlValue::Mapping(ms) => ms@.len() - k,
        _ => 0,
    }),
{
    match parent {
        YamlValue::Mapping(ms) => if k < 0 || k >= ms@.len() {
            Seq::empty()
        } else {
            proof {
                vstd::std_specs::vec::axiom_vec_index_decreases(ms, k);
                assert(decreases_to!(parent => parent->Mapping_0));
                assert(decreases_to!(ms@[k] => ms@[k].1));
            }
            match ms@[k].0 {
                YamlValue::Text(key) => seq![(key@, yaml_view(ms@[k].1))] + yaml_members(parent, k + 1),
                _ => yaml_members(parent, k + 1),
            }
        },
        _ => Seq::empty(),
    }
}

/// The document as JSON: mappings keep their string-keyed entries, in order.
pub fn yaml_json(v: &YamlValue) -> (r: JsonValue)
    ensures
        jview(r) == yaml_view(*v),
    decreases v,
{
    match v {
        YamlValue::Null => JsonValue::Null,
        YamlValue::Bool(b) => JsonValue::Bool(*b),
        YamlValue::Number(t) => JsonValue::Number(copy_str(t.as_str())),
        YamlValue::Text(t) => JsonValue::Text(copy_str(t.as_str())),
        YamlValue::Sequence(xs) => {
            let mut out: Vec<JsonValue> = Vec::new();
            let mut k: usize = 0;
            while k < xs.len()
                invariant
                    *v == YamlValue::Sequence(*xs),
                    k <= xs@.len(),
                    out@.len() == k,
                    forall|i: int| 0 <= i < k ==> jview(#[trigger] out@[i]) == yaml_view(xs@[i]),
                decreases xs.len() - k,
            {
                proof {
                    vstd::std_specs::vec::axiom_vec_index_decreases(*xs, k as int);
                    assert(decreases_to!(*v => (*v)->Sequence_0));
                }
                let c = yaml_json(&xs[k]);
                out.push(c);
                k += 1;
            }
            proof {
                lemma_array_view(out, yaml_view(*v)->Array_0);
            }
            JsonValue::Array(out)
        },
        YamlValue::Mapping(ms) => {
            let mut out: Vec<(String, JsonValue)> = Vec::new();
            let mut k: usize = 0;
            assert(yaml_members(*v, 0) =~= out@.map_values(|p: (String, JsonValue)| (p.0@, jview(p.1))) + yaml_members(*v, 0));
            while k < ms.len()
                invariant
                    *v == YamlValue::Mapping(*ms),
                    k <= ms@.len(),
                    yaml_members(*v, 0) == out@.map_values(|p: (String, JsonValue)| (p.0@, jview(p.1))) + yaml_members(
                        *v,
                        k as int,
                    ),
                decreases ms.len() - k,
            {
                proof {
                    vstd::std_specs::vec::axiom_vec_index_decreases(*ms, k as int);
                    assert(decreases_to!(*v => (*v)->Mapping_0));
                    assert(decreases_to!(ms@[k as int] => ms@[k as int].1));
                }
                let ghost before = out@.map_values(|p: (String, JsonValue)| (p.0@, jview(p.1)));
                match &ms[k].0 {
                    YamlValue::Text(key) => {
                        let c = yaml_json(&ms[k].1);
                        out.push((copy_str(key.as_str()), c));
                        assert(out@.map_values(|p: (String, JsonValue)| (p.0@, jview(p.1))) =~= before.push(
                            (key@, jview(c)),
                        ));
                        assert(before.push((key@, jview(c))) + yaml_members(*v, k + 1) =~= before + (seq![
                            (key@, yaml_view(ms@[k as int].1)),
                        ] + yaml_members(*v, k + 1)));
                    },
                    _ => {},
                }
                k += 1;
            }
            proof {
                assert(yaml_members(*v, k as int) =~= Seq::<(Seq<char>, JView)>::empty());
                let view = out@.map_values(|p: (String, JsonValue)| (p.0@, jview(p.1)));
                assert(view + Seq::<(Seq<char>, JView)>::empty() =~= view);
                lemma_object_view(out, view);
            }
            JsonValue::Object(out)
        },
    }
}

/// How `f64::to_string` writes the YAML number written `t` (`Number::as_f64`).
pub uninterp spec fn yaml_float_text(t: Seq<char>) -> Seq<char>;

/// `t.parse::<serde_yaml::Number>()`, then `as_f64`, then `to_string`.
#[verifier::external_body]
fn float_text(t: &str) -> (r: String)
    ensures
        r@ == yaml_float_text(t@),
{
    t.parse::<serde_yaml::Number>().ok().and_then(|n| n.as_f64()).map(|x| x.to_string()).unwrap_or_default()
}

/// The string member `key` of an object.
pub open spec fn text_member(v: JsonValue, key: Seq<char>) -> Option<Seq<char>> {
    match json_get(v, key) {
        Some(JsonValue::Text(s)) => Some(s@),
        _ => None,
    }
}

pub(crate) fn text_member_exec<'a>(v: &'a JsonValue, key: &str) -> (r: Option<&'a String>)
    ensures
        opt_ref(r) == text_member(*v, key@),
{
    match v {
        JsonValue::Object(m) => match json_member(m, key) {
            Some(JsonValue::Text(s)) => Some(s),
            _ => None,
        },
        _ => None,
    }
}

/// The text of an optional borrowed string.
pub open spec fn opt_ref(o: Option<&String>) -> Option<Seq<char>> {
    match o {
        Some(s) => Some(s@),
        None => None,
    }
}

/// The provider of a document: `unknown` for a bare list or a document without one.
pub open spec fn treg_provider(doc: JsonValue) -> Seq<char> {
    if doc is Array {
        "unknown"@
    } else {
        or_text(text_member(doc, "provider"@), "unknown"@)
    }
}

/// The endpoint entries of a document: the list itself, or its `endpoints` list.
pub open spec fn treg_entries(doc: JsonValue) -> Seq<JsonValue> {
    match doc {
        JsonValue::Array(items) => items@,
        _ => match json_get(doc, "endpoints"@) {
            Some(JsonValue::Array(items)) => items@,
            _ => Seq::empty(),
        },
    }
}

/// The provider and the endpoint entries of a document (no entries: `None`).
pub fn treg_items(doc: &JsonValue) -> (r: (String, Option<&Vec<JsonValue>>))
    ensures
        r.0@ == treg_provider(*doc),
        match r.1 {
            Some(items) => items@ == treg_entries(*doc),
            None => treg_entries(*doc).len() == 0,
        },
{
    match doc {
        JsonValue::Array(items) => (copy_str("unknown"), Some(items)),
        JsonValue::Object(m) => {
            let provider = match text_member_exec(doc, "provider") {
                Some(p) => copy_str(p.as_str()),
                None => copy_str("unknown"),
            };
            match json_member(m, "endpoints") {
                Some(JsonValue::Array(items)) => (provider, Some(items)),
                _ => (provider, None),
            }
        },
        _ => {
            let provider = copy_str("unknown");
            (provider, None)
        },
    }
}

/// The number a published USD price is written as: the `value` of `cost` when it is a
/// number and the `currency` (default `usd`) is USD in any case. Credits and other vendor
/// units are not micro-USD and stay unpublished.
pub open spec fn usd_cost(cost: Option<JsonValue>) -> Option<Seq<char>> {
    match cost {
        None => None,
        Some(c) => match json_get(c, "value"@) {
            Some(JsonValue::Number(t)) => if spec_lower(or_text(text_member(c, "currency"@), "usd"@))
                == "usd"@ {
                Some(t@)
            } else {
                None
            },
            _ => None,
        },
    }
}

/// The number of the published USD price of an endpoint entry (see `usd_cost`).
pub fn usd_cost_text(entry: &JsonValue) -> (r: Option<String>)
    ensures
        opt_text(r) == usd_cost(json_get(*entry, "cost"@)),
{
    let cost = match entry {
        JsonValue::Object(m) => json_member(m, "cost"),
        _ => None,
    };
    let c = match cost {
        Some(c) => c,
        None => {
            return None;
        },
    };
    let t = match c {
        JsonValue::Object(cm) => match json_member(cm, "value") {
            Some(JsonValue::Number(t)) => t,
            _ => {
                return None;
            },
        },
        _ => {
            return None;
        },
    };
    let currency = match text_member_exec(c, "currency") {
        Some(s) => copy_str(s.as_str()),
        None => copy_str("usd"),
    };
    if crate::scope::eq_ignore_ascii_case(currency.as_str(), "usd") {
        proof {
            reveal_strlit("usd");
            assert(spec_lower("usd"@) =~= "usd"@);
        }
        Some(copy_str(t.as_str()))
    } else {
        proof {
            reveal_strlit("usd");
            assert(spec_lower("usd"@) =~= "usd"@);
        }
        None
    }
}

/// The strings of a list (other items skipped); nothing for anything but a list.
pub open spec fn string_items(raw: Option<JsonValue>) -> Seq<Seq<char>> {
    match raw {
        Some(JsonValue::Array(items)) => strings_of(items@),
        _ => Seq::empty(),
    }
}

/// The strings among `items`, in order.
pub open spec fn strings_of(items: Seq<JsonValue>) -> Seq<Seq<char>>
    decreases items.len(),
{
    if items.len() == 0 {
        Seq::empty()
    } else {
        let rest = strings_of(items.drop_last());
        match items.last() {
            JsonValue::Text(s) => rest.push(s@),
            _ => rest,
        }
    }
}

fn strings_exec(items: &Vec<JsonValue>) -> (r: Vec<String>)
    ensures
        texts(r@) == strings_of(items@),
{
    let mut out: Vec<String> = Vec::new();
    let mut k: usize = 0;
    while k < items.len()
        invariant
            k <= items@.len(),
            texts(out@) == strings_of(items@.take(k as int)),
        decreases items.len() - k,
    {
        proof {
            assert(items@.take(k + 1).drop_last() =~= items@.take(k as int));
            assert(items@.take(k + 1).last() == items@[k as int]);
        }
        if let JsonValue::Text(s) = &items[k] {
            let ghost before = out@;
            out.push(copy_str(s.as_str()));
            assert(texts(out@) =~= texts(before).push(s@));
        }
        k += 1;
    }
    assert(items@.take(items@.len() as int) =~= items@);
    out
}

/// Whether `t` is how the crate writes a YAML number that `as_i64` reads: an optional minus
/// and digits, within `i64` (integers are written as plain digits; floats always carry a
/// point, an exponent or a `.nan` / `.inf` word).
pub open spec fn is_i64_text(t: Seq<char>) -> bool {
    if t.len() > 0 && t[0] == '-' {
        all_digits(t.drop_first())
    } else {
        all_digits(t) && digits_value(t) <= i64::MAX
    }
}

/// How a schema `example` is written: strings as they are, integers in decimal, other
/// numbers as `f64::to_string` writes them, booleans as `true`/`false`, anything else empty.
pub open spec fn example_text(e: JsonValue) -> Seq<char> {
    match e {
        JsonValue::Text(s) => s@,
        JsonValue::Number(t) => if is_i64_text(t@) {
            t@
        } else {
            yaml_float_text(t@)
        },
        JsonValue::Bool(b) => if b {
            "true"@
        } else {
            "false"@
        },
        _ => Seq::empty(),
    }
}

fn is_i64_exec(t: &str) -> (r: bool)
    ensures
        r == is_i64_text(t@),
{
    let c = to_chars(t);
    if c.len() > 0 && c[0] == '-' {
        let rest = from_chars(crate::text::slice_vec(c.as_slice(), 1, c.len()).as_slice());
        assert(rest@ =~= t@.drop_first());
        all_digits_exec(rest.as_str())
    } else {
        proof {
            lemma_digits_nonneg(t@);
        }
        match parse_digits(t) {
            Some(v) => v <= 0x7fff_ffff_ffff_ffff,
            None => false,
        }
    }
}

/// Digits have a non-negative value.
pub proof fn lemma_digits_nonneg(t: Seq<char>)
    ensures
        (forall|i: int| 0 <= i < t.len() ==> '0' <= #[trigger] t[i] <= '9') ==> digits_value(t) >= 0,
    decreases t.len(),
{
    if t.len() > 0 {
        lemma_digits_nonneg(t.drop_last());
        if forall|i: int| 0 <= i < t.len() ==> '0' <= #[trigger] t[i] <= '9' {
            assert forall|i: int| 0 <= i < t.drop_last().len() implies '0' <= #[trigger] t.drop_last()[i] <= '9' by {
                assert(t.drop_last()[i] == t[i]);
            }
            assert('0' <= t.last() <= '9');
        }
    }
}

fn all_digits_exec(t: &str) -> (r: bool)
    ensures
        r == all_digits(t@),
{
    let c = to_chars(t);
    if c.len() == 0 {
        return false;
    }
    let mut k: usize = 0;
    while k < c.len()
        invariant
            c@ == t@,
            k <= c@.len(),
            forall|i: int| 0 <= i < k ==> '0' <= #[trigger] c@[i] <= '9',
        decreases c.len() - k,
    {
        if !('0' <= c[k] && c[k] <= '9') {
            return false;
        }
        k += 1;
    }
    true
}

fn example_exec(e: &JsonValue) -> (r: String)
    ensures
        r@ == example_text(*e),
{
    match e {
        JsonValue::Text(s) => copy_str(s.as_str()),
        JsonValue::Number(t) => if is_i64_exec(t.as_str()) {
            copy_str(t.as_str())
        } else {
            float_text(t.as_str())
        },
        JsonValue::Bool(b) => if *b {
            copy_str("true")
        } else {
            copy_str("false")
        },
        _ => String::new(),
    }
}


/// What a declared query field says: type, required, example, allowed values.
pub type FieldDesc = (Seq<char>, bool, Option<Seq<char>>, Option<Seq<Seq<char>>>);

/// The description of one declared query field.
pub open spec fn field_desc(spec: JsonValue) -> FieldDesc {
    let required = match json_get(spec, "required"@) {
        Some(JsonValue::Bool(b)) => b,
        _ => false,
    };
    let ty = or_text(text_member(spec, "type"@), "string"@);
    let example = match json_get(spec, "example"@) {
        Some(e) => Some(example_text(e)),
        None => None,
    };
    let enums = match json_get(spec, "enum"@) {
        Some(JsonValue::Array(a)) => Some(strings_of(a@)),
        _ => None,
    };
    (ty, required, example, enums)
}

/// The member names of a field's schema object, in JSON object order.
pub open spec fn field_keys(d: FieldDesc) -> Seq<Seq<char>> {
    (if d.3 is Some {
        seq!["enum"@]
    } else {
        Seq::empty()
    }) + (if d.2 is Some {
        seq!["example"@]
    } else {
        Seq::empty()
    }) + seq!["required"@, "type"@]
}

/// `v` is the schema object of a field described by `d`: `enum` (the allowed strings),
/// `example`, `required`, `type`, each when present.
pub open spec fn field_is(v: JsonValue, d: FieldDesc) -> bool {
    let e: int = if d.3 is Some {
        1
    } else {
        0
    };
    let x: int = e + if d.2 is Some {
        1int
    } else {
        0int
    };
    &&& keys_are(v, field_keys(d))
    &&& d.3 matches Some(es) ==> member_at(v, 0) matches JsonValue::Array(a) && a@.len() == es.len()
        && forall|i: int| 0 <= i < es.len() ==> text_is(#[trigger] a@[i], es[i])
    &&& d.2 matches Some(ex) ==> text_is(member_at(v, e), ex)
    &&& member_at(v, x) == JsonValue::Bool(d.1)
    &&& text_is(member_at(v, x + 1), d.0)
}

/// Fields by name after declaring `k` as `d` (a later declaration of a name replaces it).
pub open spec fn schema_insert(s: Seq<(Seq<char>, FieldDesc)>, k: Seq<char>, d: FieldDesc) -> Seq<(Seq<char>, FieldDesc)>
    decreases s.len(),
{
    if s.len() == 0 {
        seq![(k, d)]
    } else if s[0].0 == k {
        s.update(0, (k, d))
    } else if lex_lt(k, s[0].0) {
        seq![(k, d)] + s
    } else {
        seq![s[0]] + schema_insert(s.drop_first(), k, d)
    }
}

/// The declared fields of a `queryParams` mapping, by name.
pub open spec fn schema_fields(m: Seq<(String, JsonValue)>) -> Seq<(Seq<char>, FieldDesc)>
    decreases m.len(),
{
    if m.len() == 0 {
        Seq::empty()
    } else {
        schema_insert(schema_fields(m.drop_last()), m.last().0@, field_desc(m.last().1))
    }
}

/// `r` is the object of these fields, in this order.
pub open spec fn schema_is(r: JsonValue, fields: Seq<(Seq<char>, FieldDesc)>) -> bool {
    r matches JsonValue::Object(m) && schema_members(m@, fields)
}

/// Members match the fields one for one.
pub open spec fn schema_members(m: Seq<(String, JsonValue)>, fields: Seq<(Seq<char>, FieldDesc)>) -> bool {
    m.len() == fields.len() && forall|i: int|
        0 <= i < m.len() ==> (#[trigger] m[i]).0@ == fields[i].0 && field_is(m[i].1, fields[i].1)
}

/// The query schema of a `queryParams` value: its fields when it is a mapping, else none.
pub open spec fn query_fields(raw: Option<JsonValue>) -> Seq<(Seq<char>, FieldDesc)> {
    match raw {
        Some(JsonValue::Object(m)) => schema_fields(m@),
        _ => Seq::empty(),
    }
}

fn field_exec(spec: &JsonValue) -> (r: JsonValue)
    ensures
        field_is(r, field_desc(*spec)),
{
    let required = match spec {
        JsonValue::Object(m) => match json_member(m, "required") {
            Some(JsonValue::Bool(b)) => *b,
            _ => false,
        },
        _ => false,
    };
    let ty = match text_member_exec(spec, "type") {
        Some(t) => copy_str(t.as_str()),
        None => copy_str("string"),
    };
    let (example, enums) = match spec {
        JsonValue::Object(m) => (json_member(m, "example"), match json_member(m, "enum") {
            Some(JsonValue::Array(a)) => Some(a),
            _ => None,
        }),
        _ => (None, None),
    };
    let mut out: Vec<(String, JsonValue)> = Vec::new();
    if let Some(a) = enums {
        let vals = strings_exec(a);
        let mut items: Vec<JsonValue> = Vec::new();
        let mut k: usize = 0;
        while k < vals.len()
            invariant
                k <= vals@.len(),
                items@.len() == k,
                forall|i: int| 0 <= i < k ==> text_is(#[trigger] items@[i], vals@[i]@),
            decreases vals.len() - k,
        {
            items.push(JsonValue::Text(copy_str(vals[k].as_str())));
            k += 1;
        }
        proof {
            assert forall|i: int| 0 <= i < items@.len() implies text_is(#[trigger] items@[i], strings_of(a@)[i]) by {
                assert(texts(vals@)[i] == vals@[i]@);
            }
        }
        out.push((copy_str("enum"), JsonValue::Array(items)));
    }
    if let Some(e) = example {
        out.push((copy_str("example"), JsonValue::Text(example_exec(e))));
    }
    out.push((copy_str("required"), JsonValue::Bool(required)));
    out.push((copy_str("type"), JsonValue::Text(ty)));
    let r = JsonValue::Object(out);
    proof {
        let d = field_desc(*spec);
        assert(field_keys(d).len() == out@.len());
        assert forall|i: int| 0 <= i < field_keys(d).len() implies (#[trigger] out@[i]).0@ == field_keys(d)[i] by {
        }
    }
    r
}


/// Inserting skips the leading names that are neither `k` nor after it.
proof fn lemma_schema_insert_at(s: Seq<(Seq<char>, FieldDesc)>, k: Seq<char>, d: FieldDesc, j: int)
    requires
        0 <= j <= s.len(),
        forall|i: int| 0 <= i < j ==> s[i].0 != k && !lex_lt(k, #[trigger] s[i].0),
    ensures
        schema_insert(s, k, d) == s.take(j) + schema_insert(s.skip(j), k, d),
        j < s.len() && s[j].0 == k ==> schema_insert(s.skip(j), k, d) == s.skip(j).update(0, (k, d)),
        j < s.len() && s[j].0 != k && lex_lt(k, s[j].0) ==> schema_insert(s.skip(j), k, d) == seq![(k, d)]
            + s.skip(j),
        j == s.len() ==> schema_insert(s.skip(j), k, d) == seq![(k, d)],
    decreases j,
{
    if j > 0 {
        lemma_schema_insert_at(s.drop_first(), k, d, j - 1);
        assert(s.drop_first().skip(j - 1) =~= s.skip(j));
        assert(s.take(j) =~= seq![s[0]] + s.drop_first().take(j - 1));
    } else {
        assert(s.skip(0) =~= s);
        assert(s.take(0) =~= Seq::<(Seq<char>, FieldDesc)>::empty());
    }
    if j == s.len() {
        assert(s.skip(j) =~= Seq::<(Seq<char>, FieldDesc)>::empty());
    }
}

fn schema_insert_exec(out: &mut Vec<(String, JsonValue)>, key: &str, field: JsonValue, Ghost(fields): Ghost<Seq<(Seq<char>, FieldDesc)>>, Ghost(d): Ghost<FieldDesc>)
    requires
        schema_members(old(out)@, fields),
        field_is(field, d),
    ensures
        schema_members(final(out)@, schema_insert(fields, key@, d)),
{
    let mut j: usize = 0;
    while j < out.len()
        invariant
            j <= out@.len(),
            out@ == old(out)@,
            schema_members(out@, fields),
            forall|i: int| 0 <= i < j ==> fields[i].0 != key@ && !lex_lt(key@, #[trigger] fields[i].0),
        ensures
            j <= out@.len(),
            out@ == old(out)@,
            schema_members(out@, fields),
            forall|i: int| 0 <= i < j ==> fields[i].0 != key@ && !lex_lt(key@, #[trigger] fields[i].0),
            j < out@.len() ==> fields[j as int].0 == key@ || lex_lt(key@, fields[j as int].0),
        decreases out.len() - j,
    {
        proof {
            assert(out@[j as int].0@ == fields[j as int].0);
        }
        if str_eq(out[j].0.as_str(), key) || lex_order_str(key, out[j].0.as_str()) == -1 {
            break;
        }
        j += 1;
    }
    proof {
        lemma_schema_insert_at(fields, key@, d, j as int);
    }
    let ghost want = schema_insert(fields, key@, d);
    if j < out.len() && str_eq(out[j].0.as_str(), key) {
        out.set(j, (copy_str(key), field));
        proof {
            assert(want =~= fields.update(j as int, (key@, d)));
            assert forall|i: int| 0 <= i < out@.len() implies (#[trigger] out@[i]).0@ == want[i].0 && field_is(
                out@[i].1,
                want[i].1,
            ) by {
                if i != j {
                    assert(out@[i] == old(out)@[i]);
                }
            }
        }
    } else {
        let ghost before = out@;
        out.insert(j, (copy_str(key), field));
        proof {
            assert(want =~= fields.insert(j as int, (key@, d)));
            assert forall|i: int| 0 <= i < out@.len() implies (#[trigger] out@[i]).0@ == want[i].0 && field_is(
                out@[i].1,
                want[i].1,
            ) by {
                if i < j {
                    assert(out@[i] == before[i]);
                } else if i > j {
                    assert(out@[i] == before[i - 1]);
                }
            }
        }
    }
}

/// The query schema of a `queryParams` value: one object per declared field, by name, with
/// its `enum`, `example`, `required` and `type`.
pub fn query_schema(raw: Option<&JsonValue>) -> (r: JsonValue)
    ensures
        schema_is(
            r,
            query_fields(
                match raw {
                    Some(v) => Some(*v),
                    None => None,
                },
            ),
        ),
{
    let m = match raw {
        Some(JsonValue::Object(m)) => m,
        _ => {
            return JsonValue::Object(Vec::new());
        },
    };
    let mut out: Vec<(String, JsonValue)> = Vec::new();
    let mut k: usize = 0;
    assert(m@.take(0) =~= Seq::<(String, JsonValue)>::empty());
    while k < m.len()
        invariant
            k <= m@.len(),
            schema_members(out@, schema_fields(m@.take(k as int))),
        decreases m.len() - k,
    {
        proof {
            assert(m@.take(k + 1).drop_last() =~= m@.take(k as int));
            assert(m@.take(k + 1).last() == m@[k as int]);
        }
        let f = field_exec(&m[k].1);
        schema_insert_exec(&mut out, m[k].0.as_str(), f, Ghost(schema_fields(m@.take(k as int))), Ghost(field_desc(m@[k as int].1)));
        k += 1;
    }
    assert(m@.take(m@.len() as int) =~= m@);
    JsonValue::Object(out)
}

/// `s` with every `.` replaced by a space.
pub open spec fn dots_to_spaces(s: Seq<char>) -> Seq<char> {
    s.map_values(|c: char| if c == '.' {
        ' '
    } else {
        c
    })
}

fn dots_to_spaces_exec(s: &str) -> (r: String)
    ensures
        r@ == dots_to_spaces(s@),
{
    let v = to_chars(s);
    let mut out: Vec<char> = Vec::new();
    let mut k: usize = 0;
    while k < v.len()
        invariant
            k <= v@.len(),
            out@ == dots_to_spaces(v@.take(k as int)),
        decreases v.len() - k,
    {
        out.push(if v[k] == '.' {
            ' '
        } else {
            v[k]
        });
        proof {
            assert(dots_to_spaces(v@.take(k + 1)) =~= dots_to_spaces(v@.take(k as int)).push(
                if v@[k as int] == '.' {
                    ' '
                } else {
                    v@[k as int]
                },
            ));
        }
        k += 1;
    }
    assert(v@.take(v@.len() as int) =~= v@);
    from_chars(out.as_slice())
}

/// The id of an endpoint entry, when it has a non-empty one.
pub open spec fn entry_id(value: JsonValue) -> Option<Seq<char>> {
    match text_member(value, "id"@) {
        Some(id) => if id.len() > 0 {
            Some(id)
        } else {
            None
        },
        None => None,
    }
}

/// The `input.queryParams` value of an entry.
pub open spec fn query_params(value: JsonValue) -> Option<JsonValue> {
    match json_get(value, "input"@) {
        Some(i) => json_get(i, "queryParams"@),
        None => None,
    }
}

/// Whether `e` is the endpoint read from entry `value` of provider `provider` with the
/// micro-USD price `cost`: missing names default to the id, the method to `GET`, the path to
/// `/`; without job phrases, the capability (dots as spaces), the lower-case name and the
/// provider stand in; a priced endpoint is served by the platform, an unpriced one only with
/// an own key; the origin is the provider's mock.
pub open spec fn is_entry_endpoint(e: Endpoint, value: JsonValue, provider: Seq<char>, cost: Option<i64>) -> bool {
    let id = entry_id(value)->0;
    let capability = or_text(text_member(value, "capability"@), id);
    let name = or_text(text_member(value, "name"@), id);
    let listed = string_items(json_get(value, "jobs"@));
    &&& e.id@ == id
    &&& e.capability@ == capability
    &&& e.provider@ == provider
    &&& e.name@ == name
    &&& e.summary@ == or_text(text_member(value, "summary"@), Seq::empty())
    &&& texts(e.jobs@) == if listed.len() == 0 {
        seq![dots_to_spaces(capability), spec_lower(name), provider]
    } else {
        listed
    }
    &&& e.method@ == or_text(text_member(value, "method"@), "GET"@)
    &&& e.path@ == or_text(text_member(value, "path"@), "/"@)
    &&& e.base_url@ == "mock://"@ + provider
    &&& e.access == if cost is Some {
        Access::Platform
    } else {
        Access::OwnKeyOnly
    }
    &&& e.cost_micro == cost
    &&& schema_is(e.query, query_fields(query_params(value)))
    &&& e.routed_child is None
    &&& e.strict_query == match json_get(value, "strict_query"@) {
        Some(JsonValue::Bool(b)) => b,
        _ => false,
    }
}

fn member_ref<'a>(v: &'a JsonValue, key: &str) -> (r: Option<&'a JsonValue>)
    ensures
        match r {
            Some(x) => json_get(*v, key@) == Some(*x),
            None => json_get(*v, key@) is None,
        },
{
    match v {
        JsonValue::Object(m) => json_member(m, key),
        _ => None,
    }
}

fn text_or_exec(v: &JsonValue, key: &str, d: &str) -> (r: String)
    ensures
        r@ == or_text(text_member(*v, key@), d@),
{
    match text_member_exec(v, key) {
        Some(s) => copy_str(s.as_str()),
        None => copy_str(d),
    }
}

/// The endpoint of one entry of a provider document, priced at `cost_micro` (the published
/// USD price in micro-USD, worked out by the caller from `usd_cost_text`); `None` for an
/// entry without a non-empty id.
pub fn endpoint_from_yaml(value: &JsonValue, provider: &str, cost_micro: Option<i64>) -> (r: Option<Endpoint>)
    ensures
        match r {
            Some(e) => entry_id(*value) is Some && is_entry_endpoint(e, *value, provider@, cost_micro),
            None => entry_id(*value) is None,
        },
{
    let id = match text_member_exec(value, "id") {
        Some(s) => copy_str(s.as_str()),
        None => {
            return None;
        },
    };
    if to_chars(id.as_str()).len() == 0 {
        return None;
    }
    let capability = text_or_exec(value, "capability", id.as_str());
    let name = text_or_exec(value, "name", id.as_str());
    let summary = text_or_exec(value, "summary", "");
    proof {
        reveal_strlit("");
    }
    let method = text_or_exec(value, "method", "GET");
    let path = text_or_exec(value, "path", "/");
    let strict_query = match member_ref(value, "strict_query") {
        Some(JsonValue::Bool(b)) => *b,
        _ => false,
    };
    let params = match member_ref(value, "input") {
        Some(i) => member_ref(i, "queryParams"),
        None => None,
    };
    let query = query_schema(params);
    let mut jobs = match member_ref(value, "jobs") {
        Some(JsonValue::Array(items)) => strings_exec(items),
        _ => Vec::new(),
    };
    if jobs.len() == 0 {
        jobs.push(dots_to_spaces_exec(capability.as_str()));
        jobs.push(from_chars(lower_chars(to_chars(name.as_str()).as_slice()).as_slice()));
        jobs.push(copy_str(provider));
        assert(texts(jobs@) =~= seq![dots_to_spaces(capability@), spec_lower(name@), provider@]);
    }
    let access = if cost_micro.is_some() {
        Access::Platform
    } else {
        Access::OwnKeyOnly
    };
    let mut base_url = copy_str("mock://");
    push_str(&mut base_url, provider);
    let e = Endpoint {
            id,
            capability,
            provider: copy_str(provider),
            name,
            summary,
            jobs,
            method,
            path,
            base_url,
            access,
            cost_micro,
            query,
            routed_child: None,
            strict_query,
        };
    proof {
        let cap = or_text(text_member(*value, "capability"@), id@);
        assert(e.id@ == entry_id(*value)->0);
        assert(e.summary@ == or_text(text_member(*value, "summary"@), Seq::empty()));
        assert(texts(e.jobs@) == if string_items(json_get(*value, "jobs"@)).len() == 0 {
            seq![dots_to_spaces(cap), spec_lower(e.name@), provider@]
        } else {
            string_items(json_get(*value, "jobs"@))
        });
        assert(schema_is(e.query, query_fields(query_params(*value))));
        assert(e.strict_query == match json_get(*value, "strict_query"@) {
            Some(JsonValue::Bool(b)) => b,
            _ => false,
        });
    }
    Some(e)
}

/// The indices of the entries that have a non-empty id, in order.
pub open spec fn picked(entries: Seq<JsonValue>) -> Seq<int>
    decreases entries.len(),
{
    if entries.len() == 0 {
        Seq::empty()
    } else {
        let rest = picked(entries.drop_last());
        if entry_id(entries.last()) is Some {
            rest.push(entries.len() - 1)
        } else {
            rest
        }
    }
}

/// The picked indices are in range.
proof fn lemma_picked_bounds(entries: Seq<JsonValue>)
    ensures
        forall|i: int| 0 <= i < picked(entries).len() ==> 0 <= #[trigger] picked(entries)[i] < entries.len(),
    decreases entries.len(),
{
    if entries.len() > 0 {
        let rest = picked(entries.drop_last());
        lemma_picked_bounds(entries.drop_last());
        assert forall|i: int| 0 <= i < picked(entries).len() implies 0 <= #[trigger] picked(entries)[i] < entries.len() by {
            if i < rest.len() {
                assert(picked(entries)[i] == rest[i]);
            }
        }
    }
}

/// The endpoints of a provider document (see `treg_items`), the entry at index `k` priced at
/// `costs[k]`; entries without a non-empty id are skipped.
pub fn parse_treg_value(doc: &JsonValue, costs: &Vec<Option<i64>>) -> (r: Vec<Endpoint>)
    requires
        costs@.len() == treg_entries(*doc).len(),
    ensures
        r@.len() == picked(treg_entries(*doc)).len(),
        forall|i: int|
            0 <= i < r@.len() ==> {
                let k = picked(treg_entries(*doc))[i];
                &&& 0 <= k < treg_entries(*doc).len()
                &&& is_entry_endpoint(#[trigger] r@[i], treg_entries(*doc)[k], treg_provider(*doc), costs@[k])
            },
{
    let (provider, items) = treg_items(doc);
    let items = match items {
        Some(items) => items,
        None => {
            return Vec::new();
        },
    };
    let ghost entries = treg_entries(*doc);
    let mut out: Vec<Endpoint> = Vec::new();
    let mut k: usize = 0;
    while k < items.len()
        invariant
            k <= items@.len(),
            items@ == entries,
            costs@.len() == entries.len(),
            provider@ == treg_provider(*doc),
            out@.len() == picked(entries.take(k as int)).len(),
            forall|i: int|
                0 <= i < out@.len() ==> {
                    let j = picked(entries.take(k as int))[i];
                    &&& 0 <= j < k
                    &&& is_entry_endpoint(#[trigger] out@[i], entries[j], provider@, costs@[j])
                },
        decreases items.len() - k,
    {
        proof {
            assert(entries.take(k + 1).drop_last() =~= entries.take(k as int));
            assert(entries.take(k + 1).last() == entries[k as int]);
        }
        let ghost before = out@;
        let ghost pk = picked(entries.take(k as int));
        proof {
            lemma_picked_bounds(entries.take(k + 1));
        }
        if let Some(e) = endpoint_from_yaml(&items[k], provider.as_str(), costs[k]) {
            out.push(e);
            proof {
                assert(picked(entries.take(k + 1)) == pk.push(k as int));
                assert forall|i: int| 0 <= i < out@.len() implies {
                    let j = picked(entries.take(k + 1))[i];
                    &&& 0 <= j < k + 1
                    &&& is_entry_endpoint(#[trigger] out@[i], entries[j], provider@, costs@[j])
                } by {
                    if i < before.len() {
                        assert(out@[i] == before[i]);
                        assert(picked(entries.take(k + 1))[i] == pk[i]);
                    }
                }
            }
        } else {
            proof {
                assert(picked(entries.take(k + 1)) == pk);
            }
        }
        k += 1;
    }
    assert(entries.take(entries.len() as int) =~= entries);
    proof {
        lemma_picked_bounds(entries);
    }
    out
}


/// The meta files of a catalog directory, which hold no endpoints.
pub open spec fn is_meta_file(lower: Seq<char>) -> bool {
    lower == "adapters.yaml"@ || lower == "adapters.yml"@ || lower == "aliases.yaml"@ || lower
        == "aliases.yml"@ || lower == "capabilities.yaml"@ || lower == "capabilities.yml"@ || lower
        == "contracts.yaml"@ || lower == "contracts.yml"@
}

/// Whether a catalog file is skipped: one without a (UTF-8) name, a meta file, or an
/// `.extended.` file unless extended files are included. Names compare in lower case.
pub open spec fn spec_skip_file(name: Option<Seq<char>>, include_extended: bool) -> bool {
    match name {
        None => true,
        Some(n) => is_meta_file(spec_lower(n)) || (!include_extended && crate::text::find_seq(
            spec_lower(n),
            ".extended."@,
        ) is Some),
    }
}

/// Whether a catalog file is skipped (see `spec_skip_file`).
pub fn skip_file(name: Option<&str>, include_extended: bool) -> (r: bool)
    ensures
        r == spec_skip_file(
            match name {
                Some(n) => Some(n@),
                None => None,
            },
            include_extended,
        ),
{
    let n = match name {
        Some(n) => n,
        None => {
            return true;
        },
    };
    let lower = from_chars(lower_chars(to_chars(n).as_slice()).as_slice());
    let l = lower.as_str();
    if str_eq(l, "adapters.yaml") || str_eq(l, "adapters.yml") || str_eq(l, "aliases.yaml") || str_eq(
        l,
        "aliases.yml",
    ) || str_eq(l, "capabilities.yaml") || str_eq(l, "capabilities.yml") || str_eq(l, "contracts.yaml")
        || str_eq(l, "contracts.yml") {
        return true;
    }
    let lv = to_chars(l);
    let pat = to_chars(".extended.");
    !include_extended && crate::text::find_seq_from(lv.as_slice(), 0, pat.as_slice()).is_some()
}

/// Whether a flag value turns an option on: `1`, `true` or `yes`, in any case.
pub open spec fn spec_flag_on(value: Seq<char>) -> bool {
    let l = spec_lower(value);
    l == "1"@ || l == "true"@ || l == "yes"@
}

/// Whether a flag value turns an option on (see `spec_flag_on`).
pub fn flag_on(value: &str) -> (r: bool)
    ensures
        r == spec_flag_on(value@),
{
    let lower = from_chars(lower_chars(to_chars(value).as_slice()).as_slice());
    str_eq(lower.as_str(), "1") || str_eq(lower.as_str(), "true") || str_eq(lower.as_str(), "yes")
}

} // verus!
