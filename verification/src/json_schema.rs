//! A JSON Schema subset: `type`, `required`, `properties`, `enum`, `items`.

use vstd::prelude::*;
use crate::json::{JsonValue, json_same, member_from, member_index, lemma_member_index, json_member_index};
use crate::text::{copy_str, push_str, str_eq, to_chars, decimal, spec_decimal};
use crate::search::all_digits;

verus! {

/// A schema mismatch, with the path of the offending value.
#[derive(Debug, PartialEq, Eq)]
pub struct SchemaError(pub String);

impl SchemaError {
    /// The message.
    pub fn message(&self) -> (r: String)
        ensures
            r@ == self.0@,
    {
        copy_str(self.0.as_str())
    }
}

/// A message at `path` (the path first when there is one).
pub open spec fn at_path(path: Seq<char>, msg: Seq<char>) -> Seq<char> {
    if path.len() == 0 {
        msg
    } else {
        path + ": "@ + msg
    }
}

/// The path of member `key` under `path`.
pub open spec fn join_path(path: Seq<char>, key: Seq<char>) -> Seq<char> {
    if path.len() == 0 {
        key
    } else {
        path + "."@ + key
    }
}

/// The path of item `i` under `path`.
pub open spec fn item_path(path: Seq<char>, i: nat) -> Seq<char> {
    path + "["@ + spec_decimal(i) + "]"@
}

/// Whether a number written `t` is an integer (`as_i64` or `as_u64` reads it): integers
/// are written as digits with an optional minus, other numbers always carry a point or an
/// exponent.
pub open spec fn integer_text(t: Seq<char>) -> bool {
    if t.len() > 0 && t[0] == '-' {
        all_digits(t.drop_first())
    } else {
        all_digits(t)
    }
}

/// Whether `inst` has JSON type `name` (unknown names accept anything).
pub open spec fn has_type(name: Seq<char>, inst: JsonValue) -> bool {
    if name == "object"@ {
        inst is Object
    } else if name == "array"@ {
        inst is Array
    } else if name == "string"@ {
        inst is Text
    } else if name == "number"@ {
        inst is Number
    } else if name == "integer"@ {
        inst matches JsonValue::Number(t) && integer_text(t@)
    } else if name == "boolean"@ {
        inst is Bool
    } else if name == "null"@ {
        inst is Null
    } else {
        true
    }
}

/// `number` is every JSON number, whatever its text, and nothing else; `integer` is among
/// them: every value of type `integer` has type `number`.
pub proof fn law_number_type(inst: JsonValue)
    ensures
        has_type("number"@, inst) <==> inst is Number,
        has_type("integer"@, inst) ==> has_type("number"@, inst),
        inst matches JsonValue::Number(t) ==> has_type("number"@, inst),
{
    reveal_strlit("number");
    reveal_strlit("integer");
    reveal_strlit("object");
    reveal_strlit("array");
    reveal_strlit("string");
    assert("number"@[0] == 'n' && "object"@[0] == 'o' && "array"@[0] == 'a' && "string"@[0] == 's');
    assert("integer"@[0] == 'i');
}

/// A schema `{"type": "number"}` accepts every number, integral or not, at any path.
pub proof fn law_number_schema_accepts_numbers(schema: JsonValue, t: String, path: Seq<char>)
    requires
        schema matches JsonValue::Object(obj) && {
            &&& obj@.len() == 1
            &&& obj@[0].0@ == "type"@
            &&& obj@[0].1 matches JsonValue::Text(n) && n@ == "number"@
        },
    ensures
        schema_fault(schema, JsonValue::Number(t), path) is None,
{
    law_number_type(JsonValue::Number(t));
    reveal_strlit("enum");
    reveal_strlit("type");
    assert("enum"@[0] == 'e' && "type"@[0] == 't');
    let obj = schema->Object_0;
    assert(member_from(obj@, "enum"@, 0) == member_from(obj@, "enum"@, 1));
    assert(member_from(obj@, "type"@, 0) == Some(obj@[0].1));
}

/// The complaint of a `type` keyword: one name, or a list of names one of which must hold.
pub open spec fn type_fault(type_val: JsonValue, inst: JsonValue, path: Seq<char>) -> Option<Seq<char>> {
    match type_val {
        JsonValue::Text(t) => if has_type(t@, inst) {
            None
        } else {
            Some(at_path(path, "expected "@ + t@))
        },
        JsonValue::Array(types) => if exists|i: int|
            0 <= i < types.len() && (#[trigger] types[i] matches JsonValue::Text(n) && has_type(n@, inst)) {
            None
        } else {
            Some(at_path(path, "type mismatch"@))
        },
        _ => None,
    }
}

/// The first required name (in order) that the object `map` lacks.
pub open spec fn required_fault(req: Seq<JsonValue>, map: Seq<(String, JsonValue)>, path: Seq<char>) -> Option<Seq<char>>
    decreases req.len(),
{
    if req.len() == 0 {
        None
    } else {
        match req[0] {
            JsonValue::Text(name) => if member_from(map, name@, 0) is None {
                Some(at_path(path, "missing required property "@ + name@))
            } else {
                required_fault(req.drop_first(), map, path)
            },
            _ => required_fault(req.drop_first(), map, path),
        }
    }
}

/// The first complaint of validating `inst` against `schema` at `path`, in the order the
/// keywords are checked: `enum`, `type`, the `properties` the object has (in order), its
/// `required` names, then each item against `items`.
pub open spec fn schema_fault(schema: JsonValue, inst: JsonValue, path: Seq<char>) -> Option<Seq<char>>
    decreases schema, 1nat, 0nat,
{
    match schema {
        JsonValue::Object(obj) => {
            let enum_fail = match member_from(obj@, "enum"@, 0) {
                Some(JsonValue::Array(vals)) => !(exists|i: int|
                    0 <= i < vals.len() && json_same(#[trigger] vals[i], inst)),
                _ => false,
            };
            if enum_fail {
                Some(at_path(path, "value is not in enum"@))
            } else {
                let tf = match member_from(obj@, "type"@, 0) {
                    Some(t) => type_fault(t, inst, path),
                    None => None,
                };
                if tf is Some {
                    tf
                } else {
                    let of = match inst {
                        JsonValue::Object(map) => {
                            let pf = match member_index(obj@, "properties"@, 0) {
                                Some(pi) => match obj@[pi].1 {
                                    JsonValue::Object(props) => props_fault(schema, props@, map@, path, 0),
                                    _ => None,
                                },
                                None => None,
                            };
                            if pf is Some {
                                pf
                            } else {
                                match member_from(obj@, "required"@, 0) {
                                    Some(JsonValue::Array(req)) => required_fault(req@, map@, path),
                                    _ => None,
                                }
                            }
                        },
                        _ => None,
                    };
                    if of is Some {
                        of
                    } else {
                        match (member_index(obj@, "items"@, 0), inst) {
                            (Some(ii), JsonValue::Array(arr)) => items_fault(schema, obj@[ii].1, arr@, path, 0),
                            _ => None,
                        }
                    }
                }
            }
        },
        _ => None,
    }
}

/// The first complaint among the declared properties from `k` on that the object has.
pub open spec fn props_fault(
    schema: JsonValue,
    props: Seq<(String, JsonValue)>,
    map: Seq<(String, JsonValue)>,
    path: Seq<char>,
    k: int,
) -> Option<Seq<char>>
    decreases schema, 0nat, props.len() - k,
{
    if k < 0 || k >= props.len() {
        None
    } else {
        let sub = props[k].1;
        let child = member_from(map, props[k].0@, 0);
        let here = match child {
            Some(c) => if decreases_to!(schema => sub) {
                schema_fault(sub, c, join_path(path, props[k].0@))
            } else {
                None
            },
            None => None,
        };
        if here is Some {
            here
        } else {
            props_fault(schema, props, map, path, k + 1)
        }
    }
}

/// The first complaint among the items from `i` on against the `items` schema.
pub open spec fn items_fault(schema: JsonValue, items: JsonValue, arr: Seq<JsonValue>, path: Seq<char>, i: int) -> Option<Seq<char>>
    decreases schema, 0nat, arr.len() - i,
{
    if i < 0 || i >= arr.len() {
        None
    } else {
        let here = if decreases_to!(schema => items) {
            schema_fault(items, arr[i], item_path(path, i as nat))
        } else {
            None
        };
        if here is Some {
            here
        } else {
            items_fault(schema, items, arr, path, i + 1)
        }
    }
}


fn at_path_exec(path: &str, msg: &str) -> (r: SchemaError)
    ensures
        r.0@ == at_path(path@, msg@),
{
    if to_chars(path).len() == 0 {
        SchemaError(copy_str(msg))
    } else {
        let mut s = copy_str(path);
        push_str(&mut s, ": ");
        push_str(&mut s, msg);
        SchemaError(s)
    }
}

fn join_path_exec(path: &str, key: &str) -> (r: String)
    ensures
        r@ == join_path(path@, key@),
{
    if to_chars(path).len() == 0 {
        copy_str(key)
    } else {
        let mut s = copy_str(path);
        push_str(&mut s, ".");
        push_str(&mut s, key);
        s
    }
}

fn item_path_exec(path: &str, i: usize) -> (r: String)
    ensures
        r@ == item_path(path@, i as nat),
{
    let mut s = copy_str(path);
    push_str(&mut s, "[");
    let n = decimal(i as u64);
    push_str(&mut s, n.as_str());
    push_str(&mut s, "]");
    s
}

fn all_digits_exec(t: &[char], from: usize) -> (r: bool)
    requires
        from <= t@.len(),
    ensures
        r == all_digits(t@.skip(from as int)),
{
    if from >= t.len() {
        return false;
    }
    let mut k = from;
    while k < t.len()
        invariant
            from <= k <= t@.len(),
            forall|i: int| from <= i < k ==> '0' <= #[trigger] t@[i] <= '9',
        decreases t.len() - k,
    {
        if !('0' <= t[k] && t[k] <= '9') {
            assert(t@.skip(from as int)[k - from] == t@[k as int]);
            return false;
        }
        k += 1;
    }
    assert forall|i: int| 0 <= i < t@.skip(from as int).len() implies '0' <= #[trigger] t@.skip(from as int)[i] <= '9' by {
        assert(t@.skip(from as int)[i] == t@[from + i]);
    }
    true
}

fn integer_text_exec(t: &str) -> (r: bool)
    ensures
        r == integer_text(t@),
{
    let c = to_chars(t);
    if c.len() > 0 && c[0] == '-' {
        assert(c@.skip(1) =~= t@.drop_first());
        all_digits_exec(c.as_slice(), 1)
    } else {
        assert(c@.skip(0) =~= t@);
        all_digits_exec(c.as_slice(), 0)
    }
}

fn has_type_exec(name: &str, inst: &JsonValue) -> (r: bool)
    ensures
        r == has_type(name@, *inst),
{
    if str_eq(name, "object") {
        matches!(inst, JsonValue::Object(_))
    } else if str_eq(name, "array") {
        matches!(inst, JsonValue::Array(_))
    } else if str_eq(name, "string") {
        matches!(inst, JsonValue::Text(_))
    } else if str_eq(name, "number") {
        matches!(inst, JsonValue::Number(_))
    } else if str_eq(name, "integer") {
        match inst {
            JsonValue::Number(t) => integer_text_exec(t.as_str()),
            _ => false,
        }
    } else if str_eq(name, "boolean") {
        matches!(inst, JsonValue::Bool(_))
    } else if str_eq(name, "null") {
        matches!(inst, JsonValue::Null)
    } else {
        true
    }
}

fn check_type(type_val: &JsonValue, inst: &JsonValue, path: &str) -> (r: Result<(), SchemaError>)
    ensures
        match type_fault(*type_val, *inst, path@) {
            None => r is Ok,
            Some(m) => r matches Err(e) && e.0@ == m,
        },
{
    match type_val {
        JsonValue::Text(t) => {
            if has_type_exec(t.as_str(), inst) {
                Ok(())
            } else {
                let mut msg = copy_str("expected ");
                push_str(&mut msg, t.as_str());
                Err(at_path_exec(path, msg.as_str()))
            }
        },
        JsonValue::Array(types) => {
            let mut k: usize = 0;
            while k < types.len()
                invariant
                    *type_val == JsonValue::Array(*types),
                    k <= types@.len(),
                    forall|i: int|
                        0 <= i < k ==> !(#[trigger] types@[i] matches JsonValue::Text(n) && has_type(n@, *inst)),
                decreases types.len() - k,
            {
                if let JsonValue::Text(n) = &types[k] {
                    if has_type_exec(n.as_str(), inst) {
                        assert(types[k as int] matches JsonValue::Text(n) && has_type(n@, *inst));
                        assert(exists|i: int|
                            0 <= i < types.len() && (#[trigger] types[i] matches JsonValue::Text(n) && has_type(n@, *inst)));
                        assert(*type_val matches JsonValue::Array(ts) && ts == *types);
                        assert(type_fault(JsonValue::Array(*types), *inst, path@) is None);
                        assert(type_fault(*type_val, *inst, path@) is None);
                        return Ok(());
                    }
                }
                k += 1;
            }
            Err(at_path_exec(path, "type mismatch"))
        },
        _ => Ok(()),
    }
}

fn check_required(req: &Vec<JsonValue>, map: &Vec<(String, JsonValue)>, path: &str) -> (r: Result<(), SchemaError>)
    ensures
        match required_fault(req@, map@, path@) {
            None => r is Ok,
            Some(m) => r matches Err(e) && e.0@ == m,
        },
{
    let mut k: usize = 0;
    assert(req@.skip(0) =~= req@);
    while k < req.len()
        invariant
            k <= req@.len(),
            required_fault(req@, map@, path@) == required_fault(req@.skip(k as int), map@, path@),
        decreases req.len() - k,
    {
        proof {
            assert(req@.skip(k as int).drop_first() =~= req@.skip(k + 1));
            assert(req@.skip(k as int)[0] == req@[k as int]);
        }
        if let JsonValue::Text(name) = &req[k] {
            if crate::json::json_member(map, name.as_str()).is_none() {
                let mut msg = copy_str("missing required property ");
                push_str(&mut msg, name.as_str());
                return Err(at_path_exec(path, msg.as_str()));
            }
        }
        k += 1;
    }
    Ok(())
}

fn in_enum(vals: &Vec<JsonValue>, inst: &JsonValue) -> (r: bool)
    ensures
        r == exists|i: int| 0 <= i < vals@.len() && json_same(#[trigger] vals@[i], *inst),
{
    let mut k: usize = 0;
    while k < vals.len()
        invariant
            k <= vals@.len(),
            forall|i: int| 0 <= i < k ==> !json_same(#[trigger] vals@[i], *inst),
        decreases vals.len() - k,
    {
        if crate::json::json_equal(&vals[k], inst) {
            return true;
        }
        k += 1;
    }
    false
}

/// Validate `instance` against `schema` at `path` (see `schema_fault`).
fn validate_inner(schema: &JsonValue, instance: &JsonValue, path: &str) -> (r: Result<(), SchemaError>)
    ensures
        match schema_fault(*schema, *instance, path@) {
            None => r is Ok,
            Some(m) => r matches Err(e) && e.0@ == m,
        },
    decreases schema,
{
    let obj = match schema {
        JsonValue::Object(o) => o,
        _ => {
            return Ok(());
        },
    };
    if let Some(JsonValue::Array(vals)) = crate::json::json_member(obj, "enum") {
        if !in_enum(vals, instance) {
            return Err(at_path_exec(path, "value is not in enum"));
        }
    }
    if let Some(t) = crate::json::json_member(obj, "type") {
        check_type(t, instance, path)?;
    }
    if let JsonValue::Object(map) = instance {
        if let Some(pi) = json_member_index(obj, "properties") {
            proof {
                lemma_member_index(obj@, "properties"@, 0);
            }
            if let JsonValue::Object(props) = &obj[pi].1 {
                let mut k: usize = 0;
                assert(props_fault(*schema, props@, map@, path@, 0) is Some ==> schema_fault(*schema, *instance, path@)
                    == props_fault(*schema, props@, map@, path@, 0));
                while k < props.len()
                    invariant
                        props_fault(*schema, props@, map@, path@, 0) is Some ==> schema_fault(*schema, *instance, path@)
                            == props_fault(*schema, props@, map@, path@, 0),
                        *schema == JsonValue::Object(*obj),
                        *instance == JsonValue::Object(*map),
                        pi < obj@.len(),
                        obj@[pi as int].1 == JsonValue::Object(*props),
                        k <= props@.len(),
                        props_fault(*schema, props@, map@, path@, 0) == props_fault(*schema, props@, map@, path@, k as int),
                    decreases props.len() - k,
                {
                    proof {
                        vstd::std_specs::vec::axiom_vec_index_decreases(*obj, pi as int);
                        vstd::std_specs::vec::axiom_vec_index_decreases(*props, k as int);
                        assert(decreases_to!(*schema => (*schema)->Object_0));
                        assert(decreases_to!(obj[pi as int] => obj[pi as int].1));
                        assert(decreases_to!(obj[pi as int].1 => (obj[pi as int].1)->Object_0));
                        assert(decreases_to!(props[k as int] => props[k as int].1));
                        assert(decreases_to!(*schema => props@[k as int].1));
                    }
                    if let Some(child) = crate::json::json_member(map, props[k].0.as_str()) {
                        let child_path = join_path_exec(path, props[k].0.as_str());
                        validate_inner(&props[k].1, child, child_path.as_str())?;
                    }
                    k += 1;
                }
            }
        }
        if let Some(JsonValue::Array(req)) = crate::json::json_member(obj, "required") {
            check_required(req, map, path)?;
        }
    }
    if let Some(ii) = json_member_index(obj, "items") {
        proof {
            lemma_member_index(obj@, "items"@, 0);
        }
        if let JsonValue::Array(arr) = instance {
            let items = &obj[ii].1;
            let mut i: usize = 0;
            assert(items_fault(*schema, *items, arr@, path@, 0) is Some ==> schema_fault(*schema, *instance, path@)
                == items_fault(*schema, *items, arr@, path@, 0));
            while i < arr.len()
                invariant
                    items_fault(*schema, *items, arr@, path@, 0) is Some ==> schema_fault(*schema, *instance, path@)
                        == items_fault(*schema, *items, arr@, path@, 0),
                    *schema == JsonValue::Object(*obj),
                    *instance == JsonValue::Array(*arr),
                    ii < obj@.len(),
                    *items == obj@[ii as int].1,
                    i <= arr@.len(),
                    items_fault(*schema, *items, arr@, path@, 0) == items_fault(*schema, *items, arr@, path@, i as int),
                decreases arr.len() - i,
            {
                proof {
                    vstd::std_specs::vec::axiom_vec_index_decreases(*obj, ii as int);
                    assert(decreases_to!(*schema => (*schema)->Object_0));
                    assert(decreases_to!(obj[ii as int] => obj[ii as int].1));
                    assert(decreases_to!(*schema => *items));
                }
                let p = item_path_exec(path, i);
                validate_inner(items, &arr[i], p.as_str())?;
                i += 1;
            }
        }
    }
    Ok(())
}

/// Validate `instance` against a JSON Schema subset (see `schema_fault`).
pub fn validate_against(schema: &JsonValue, instance: &JsonValue) -> (r: Result<(), SchemaError>)
    ensures
        match schema_fault(*schema, *instance, Seq::empty()) {
            None => r is Ok,
            Some(m) => r matches Err(e) && e.0@ == m,
        },
{
    proof {
        reveal_strlit("");
        assert(""@ =~= Seq::<char>::empty());
    }
    validate_inner(schema, instance, "")
}

} // verus!
