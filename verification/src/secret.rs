//! Secret references. Values never appear in tool I/O schemas.

use vstd::prelude::*;
use crate::error::invalid_id_message;
use crate::id::{ProviderItemId, ProviderKey, slug_reason, spec_opaque_result, spec_slug_result};
use crate::json::{JsonValue, json_member, member_from, member_is_text, member_text_is};
use crate::text::{copy_str, find_char, find_char_from, from_char_range, has_at, push_str, spec_has_at, to_chars};

verus! {

/// Pointer to a secret. The value is resolved in trusted space at call time.
#[derive(Clone, Debug, PartialEq, Eq)]
pub enum SecretRef {
    /// `ENV_VAR` in the process environment.
    Env {
        /// Variable name.
        name: String,
    },
    /// File contents (trimmed) at `path`.
    File {
        /// Filesystem path.
        path: String,
    },
    /// Provider-backed item.
    Provider {
        /// Backend key.
        provider: ProviderKey,
        /// Opaque item id.
        item: ProviderItemId,
    },
    /// In-memory test / default store id.
    Memory {
        /// Item id in the memory map.
        id: String,
    },
}

/// Text after `prefix` when `s` starts with it.
pub open spec fn after_prefix(s: Seq<char>, prefix: Seq<char>) -> Option<Seq<char>> {
    if spec_has_at(s, 0, prefix) {
        Some(s.skip(prefix.len() as int))
    } else {
        None
    }
}

/// The piece of a `provider:KEY:ITEM` reference: key and item text.
pub open spec fn provider_parts(rest: Seq<char>) -> Option<(Seq<char>, Seq<char>)> {
    match find_char(rest, ':') {
        Some(k) => Some((rest.take(k), rest.skip(k + 1))),
        None => None,
    }
}

/// The secret reference that `raw` names, as a predicate on a candidate result.
pub open spec fn spec_secret_ok(raw: Seq<char>, r: SecretRef) -> bool {
    match after_prefix(raw, "env:"@) {
        Some(name) => name.len() > 0 && (r matches SecretRef::Env { name: n } && n@ == name),
        None => match after_prefix(raw, "file:"@) {
            Some(path) => path.len() > 0 && (r matches SecretRef::File { path: p } && p@ == path),
            None => match after_prefix(raw, "memory:"@) {
                Some(id) => id.len() > 0 && (r matches SecretRef::Memory { id: i } && i@ == id),
                None => match after_prefix(raw, "provider:"@) {
                    Some(rest) => match provider_parts(rest) {
                        Some((key, item)) => {
                            &&& spec_slug_result(key) is Ok
                            &&& spec_opaque_result(item) is Ok
                            &&& r matches SecretRef::Provider { provider, item: it }
                            &&& spec_slug_result(key) == Ok::<Seq<char>, Seq<char>>(provider@)
                            &&& spec_opaque_result(item) == Ok::<Seq<char>, Seq<char>>(it@)
                        },
                        None => false,
                    },
                    None => false,
                },
            },
        },
    }
}

/// Whether `raw` names some secret reference.
pub open spec fn spec_secret_parses(raw: Seq<char>) -> bool {
    match after_prefix(raw, "env:"@) {
        Some(name) => name.len() > 0,
        None => match after_prefix(raw, "file:"@) {
            Some(path) => path.len() > 0,
            None => match after_prefix(raw, "memory:"@) {
                Some(id) => id.len() > 0,
                None => match after_prefix(raw, "provider:"@) {
                    Some(rest) => match provider_parts(rest) {
                        Some((key, item)) => spec_slug_result(key) is Ok && spec_opaque_result(item) is Ok,
                        None => false,
                    },
                    None => false,
                },
            },
        },
    }
}

/// The error text for a `raw` that names no secret reference.
pub open spec fn spec_secret_error(raw: Seq<char>) -> Seq<char> {
    match after_prefix(raw, "env:"@) {
        Some(_) => "env: requires a variable name"@,
        None => match after_prefix(raw, "file:"@) {
            Some(_) => "file: requires a path"@,
            None => match after_prefix(raw, "memory:"@) {
                Some(_) => "memory: requires an id"@,
                None => match after_prefix(raw, "provider:"@) {
                    Some(rest) => match provider_parts(rest) {
                        Some((key, item)) => match spec_slug_result(key) {
                            Err(v) => invalid_id_message("provider key"@, v, slug_reason(key)),
                            Ok(_) => match spec_opaque_result(item) {
                                Err(v) => invalid_id_message("provider item id"@, v, "must be non-empty"@),
                                Ok(_) => Seq::empty(),
                            },
                        },
                        None => "provider: requires provider:item"@,
                    },
                    None => "unknown secret ref: "@ + raw,
                },
            },
        },
    }
}

impl SecretRef {
    /// Parse `env:NAME`, `file:PATH`, `memory:ID`, or `provider:KEY:ITEM`.
    ///
    /// # Errors
    ///
    /// Unknown scheme or missing parts.
    pub fn parse(raw: &str) -> (r: Result<SecretRef, String>)
        ensures
            r is Ok <==> spec_secret_parses(raw@),
            r matches Ok(s) ==> spec_secret_ok(raw@, s),
            r matches Err(e) ==> e@ == spec_secret_error(raw@),
    {
        let v = to_chars(raw);
        let env = to_chars("env:");
        let file = to_chars("file:");
        let memory = to_chars("memory:");
        let provider = to_chars("provider:");
        let n = v.len();
        proof {
            reveal_strlit("env:");
        }
        if has_at(&v, 0, &env) {
            if n == 4 {
                return Err(copy_str("env: requires a variable name"));
            }
            proof { reveal_strlit("env:"); }
            return Ok(SecretRef::Env { name: from_char_range(&v, 4, n) });
        }
        if has_at(&v, 0, &file) {
            proof { reveal_strlit("file:"); }
            if n == 5 {
                return Err(copy_str("file: requires a path"));
            }
            return Ok(SecretRef::File { path: from_char_range(&v, 5, n) });
        }
        if has_at(&v, 0, &memory) {
            proof { reveal_strlit("memory:"); }
            if n == 7 {
                return Err(copy_str("memory: requires an id"));
            }
            return Ok(SecretRef::Memory { id: from_char_range(&v, 7, n) });
        }
        if has_at(&v, 0, &provider) {
            proof { reveal_strlit("provider:"); }
            assert(v@.skip(9).skip(0) =~= v@.skip(9));
            let colon = match find_char_from(&v, 9, ':') {
                Some(c) => c,
                None => return Err(copy_str("provider: requires provider:item")),
            };
            let key_text = from_char_range(&v, 9, colon);
            let item_text = from_char_range(&v, colon + 1, n);
            assert(v@.skip(9).take(colon - 9) =~= v@.subrange(9, colon as int));
            assert(v@.skip(9).skip(colon - 9 + 1) =~= v@.subrange(colon + 1, n as int));
            let key = match ProviderKey::new(key_text.as_str()) {
                Ok(k) => k,
                Err(e) => return Err(e.message()),
            };
            let item = match ProviderItemId::new(item_text.as_str()) {
                Ok(i) => i,
                Err(e) => return Err(e.message()),
            };
            return Ok(SecretRef::Provider { provider: key, item });
        }
        let mut e = copy_str("unknown secret ref: ");
        push_str(&mut e, raw);
        Err(e)
    }
}


/// Whether an object's members look like a secret reference: `kind` is `provider`, or
/// `kind` is `env` and there is a `name`.
pub open spec fn looks_like_secret_ref(m: Seq<(String, JsonValue)>) -> bool {
    member_is_text(m, "kind"@, "provider"@) || (member_is_text(m, "kind"@, "env"@) && member_from(
        m,
        "name"@,
        0,
    ) is Some)
}

/// `r` is `v` with every object that looks like a secret reference replaced by `null`,
/// at any depth; everything else kept in place.
pub open spec fn secrets_stripped(v: JsonValue, r: JsonValue) -> bool
    decreases v,
{
    match v {
        JsonValue::Object(m) => if looks_like_secret_ref(m@) {
            r is Null
        } else {
            r matches JsonValue::Object(rm) && rm.len() == m.len() && forall|i: int|
                0 <= i < m.len() ==> (#[trigger] m[i]).0@ == rm[i].0@ && secrets_stripped(m[i].1, rm[i].1)
        },
        JsonValue::Array(a) => r matches JsonValue::Array(ra) && ra.len() == a.len() && forall|i: int|
            0 <= i < a.len() ==> secrets_stripped(#[trigger] a[i], ra[i]),
        _ => r == v,
    }
}

/// Recursively drop values that look like secret refs from JSON (defense in depth).
pub fn strip_secret_refs(value: JsonValue) -> (r: JsonValue)
    ensures
        secrets_stripped(value, r),
    decreases value,
{
    let ghost whole = value;
    match value {
        JsonValue::Object(map) => {
            let is_ref = member_text_is(&map, "kind", "provider") || (member_text_is(&map, "kind", "env")
                && json_member(&map, "name").is_some());
            if is_ref {
                return JsonValue::Null;
            }
            let ghost orig = map@;
            let mut rest = map;
            let mut out: Vec<(String, JsonValue)> = Vec::new();
            let mut k: usize = 0;
            let n = rest.len();
            while rest.len() > 0
                invariant
                    whole == JsonValue::Object(map),
                    whole == value,
                    map@ == orig,
                    n == orig.len(),
                    k + rest@.len() == n,
                    rest@ == orig.skip(k as int),
                    out@.len() == k,
                    forall|i: int|
                        0 <= i < k ==> (#[trigger] orig[i]).0@ == out@[i].0@ && secrets_stripped(orig[i].1, out@[i].1),
                decreases rest@.len(),
            {
                let (key, v) = rest.remove(0);
                proof {
                    assert(orig.skip(k as int)[0] == orig[k as int]);
                    assert(orig.skip(k as int).drop_first() =~= orig.skip(k + 1));
                    vstd::std_specs::vec::axiom_vec_index_decreases(map, k as int);
                    assert(decreases_to!(whole => whole->Object_0));
                    assert(decreases_to!(map[k as int] => map[k as int].1));
                    assert(map[k as int] == orig[k as int]);
                    assert(decreases_to!(whole => v));
                }
                let s = strip_secret_refs(v);
                out.push((key, s));
                k += 1;
            }
            JsonValue::Object(out)
        },
        JsonValue::Array(items) => {
            let ghost orig = items@;
            let mut rest = items;
            let mut out: Vec<JsonValue> = Vec::new();
            let mut k: usize = 0;
            let n = rest.len();
            while rest.len() > 0
                invariant
                    whole == JsonValue::Array(items),
                    whole == value,
                    items@ == orig,
                    n == orig.len(),
                    k + rest@.len() == n,
                    rest@ == orig.skip(k as int),
                    out@.len() == k,
                    forall|i: int| 0 <= i < k ==> secrets_stripped(#[trigger] orig[i], out@[i]),
                decreases rest@.len(),
            {
                let v = rest.remove(0);
                proof {
                    assert(orig.skip(k as int)[0] == orig[k as int]);
                    assert(orig.skip(k as int).drop_first() =~= orig.skip(k + 1));
                    vstd::std_specs::vec::axiom_vec_index_decreases(items, k as int);
                    assert(decreases_to!(whole => whole->Array_0));
                    assert(items[k as int] == orig[k as int]);
                    assert(decreases_to!(whole => v));
                }
                let s = strip_secret_refs(v);
                out.push(s);
                k += 1;
            }
            JsonValue::Array(out)
        },
        other => other,
    }
}

} // verus!
