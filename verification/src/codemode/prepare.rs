//! The checks before guest code runs: the size cap, body recovery, TypeScript stripping,
//! the size cap again on what is left, and the kernel choice.

use vstd::prelude::*;
use vstd::utf8::encode_utf8;
use super::CodeError;
use super::kernel::KernelPreference;
use super::parse::{parse, spec_parse};
use super::recover::{recover_execution_body, spec_recover};
use super::strip::{fits, spec_strip, strip_typescript};
use crate::text::{copy_str, decimal, push_str, spec_decimal};

verus! {

/// The default cap on guest source: 64 KiB.
pub const MAX_CODE_BYTES: usize = 64 * 1024;

/// The size of `s` in UTF-8 bytes, as `str::len` gives it.
pub open spec fn byte_len(s: Seq<char>) -> usize {
    encode_utf8(s).len() as usize
}

/// `source is N bytes (max M)`.
pub open spec fn size_error(n: nat, max: nat) -> Seq<char> {
    "source is "@ + spec_decimal(n) + " bytes (max "@ + spec_decimal(max) + ")"@
}

/// What the checks make of `source`: an oversize source is refused; otherwise the
/// recovered body is stripped of TypeScript (its failure refused with its message), the
/// stripped body is refused when it is oversize, and the kernel is the one asked for, with
/// `Auto` becoming `Native` when the body parses in the native subset and `Js` when not.
pub open spec fn spec_prepare(source: Seq<char>, max: usize, preference: KernelPreference) -> Result<
    (Seq<char>, KernelPreference),
    Seq<char>,
> {
    if byte_len(source) > max {
        Err(size_error(byte_len(source) as nat, max as nat))
    } else {
        match spec_strip(spec_recover(source)) {
            Err(f) => Err(f.spec_message()),
            Ok(body) => if byte_len(body) > max {
                Err(size_error(byte_len(body) as nat, max as nat))
            } else {
                let kernel = match preference {
                    KernelPreference::Auto => if spec_parse(body) is Ok {
                        KernelPreference::Native
                    } else {
                        KernelPreference::Js
                    },
                    k => k,
                };
                Ok((body, kernel))
            },
        }
    }
}

fn size_message(n: usize, max: usize) -> (r: CodeError)
    ensures
        r.0@ == size_error(n as nat, max as nat),
{
    let mut m = copy_str("source is ");
    let a = decimal(n as u64);
    push_str(&mut m, a.as_str());
    push_str(&mut m, " bytes (max ");
    let b = decimal(max as u64);
    push_str(&mut m, b.as_str());
    push_str(&mut m, ")");
    CodeError(m)
}

/// Check `source` before it runs, with a cap of `max_code_bytes` (`MAX_CODE_BYTES` by
/// default): the body to run and the kernel to run it in, or why it is refused.
pub fn prepare_code(source: &str, max_code_bytes: usize, preference: KernelPreference) -> (r: Result<
    (String, KernelPreference),
    CodeError,
>)
    requires
        fits(spec_recover(source@)),
    ensures
        match spec_prepare(source@, max_code_bytes, preference) {
            Ok((body, kernel)) => r matches Ok((b, k)) && b@ == body && k == kernel,
            Err(m) => r matches Err(e) && e.0@ == m,
        },
{
    let n = source.len();
    if n > max_code_bytes {
        return Err(size_message(n, max_code_bytes));
    }
    let recovered = recover_execution_body(source);
    let body = match strip_typescript(recovered.as_str()) {
        Ok(b) => b,
        Err(e) => return Err(e),
    };
    let m = body.as_str().len();
    if m > max_code_bytes {
        return Err(size_message(m, max_code_bytes));
    }
    let kernel = match preference {
        KernelPreference::Auto => match parse(body.as_str()) {
            Ok(_) => KernelPreference::Native,
            Err(_) => KernelPreference::Js,
        },
        k => k,
    };
    Ok((body, kernel))
}

} // verus!
