//! Which kernel runs guest code.

use vstd::prelude::*;
use super::CodeError;
use crate::text::{chars_eq, copy_str, from_chars, push_str, spec_trim, to_chars, trim_vec};

verus! {

/// How code-mode chooses a kernel.
#[derive(Clone, Copy, Debug, PartialEq, Eq, Structural)]
pub enum KernelPreference {
    /// Native subset when it parses; otherwise the JS isolate.
    Auto,
    /// Never enter the JS isolate.
    Native,
    /// Always the JS isolate.
    Js,
}

/// The kernel an `EXECUTOR_KERNEL` value names, after trimming.
pub open spec fn spec_parse_kernel(raw: Seq<char>) -> Option<KernelPreference> {
    let t = spec_trim(raw);
    if t.len() == 0 || t == "auto"@ {
        Some(KernelPreference::Auto)
    } else if t == "native"@ {
        Some(KernelPreference::Native)
    } else if t == "js"@ || t == "quickjs"@ {
        Some(KernelPreference::Js)
    } else {
        None
    }
}

/// Parse an `EXECUTOR_KERNEL` value (`auto` / `native` / `js`).
///
/// # Errors
///
/// Unknown value.
pub fn parse_kernel(raw: &str) -> (r: Result<KernelPreference, CodeError>)
    ensures
        r matches Ok(k) ==> spec_parse_kernel(raw@) == Some(k),
        r is Err <==> spec_parse_kernel(raw@) is None,
        r matches Err(e) ==> e.0@ == "unknown EXECUTOR_KERNEL '"@ + spec_trim(raw@) + "' (want auto|native|js)"@,
{
    let t = trim_vec(&to_chars(raw));
    if t.len() == 0 || chars_eq(&t, &to_chars("auto")) {
        Ok(KernelPreference::Auto)
    } else if chars_eq(&t, &to_chars("native")) {
        Ok(KernelPreference::Native)
    } else if chars_eq(&t, &to_chars("js")) || chars_eq(&t, &to_chars("quickjs")) {
        Ok(KernelPreference::Js)
    } else {
        let mut m = copy_str("unknown EXECUTOR_KERNEL '");
        let other = from_chars(&t);
        push_str(&mut m, other.as_str());
        push_str(&mut m, "' (want auto|native|js)");
        Err(CodeError(m))
    }
}

} // verus!
