//! Checks and requests that the booster makes around its engine calls.
use crate::error::{ErrorKind, XGBError};
use crate::text::{nat_text, push_nat};
use vstd::prelude::*;

verus! {

/// Request text handed to the engine when serialising a model to memory: the compact
/// binary encoding or JSON text.
pub fn save_buffer_config(binary: bool) -> (r: &'static str)
    ensures
        binary ==> r@ == "{\"format\":\"ubj\"}"@,
        !binary ==> r@ == "{\"format\":\"json\"}"@,
{
    if binary {
        "{\"format\":\"ubj\"}"
    } else {
        "{\"format\":\"json\"}"
    }
}

/// Message for gradient and hessian arrays of different lengths.
pub open spec fn length_mismatch_text(gradient_len: nat, hessian_len: nat) -> Seq<char> {
    "Mismatch between length of gradient and hessian arrays ("@ + nat_text(gradient_len)
        + " != "@ + nat_text(hessian_len) + ")"@
}

/// A boosting round with caller-supplied derivatives needs one hessian value for each
/// gradient value; otherwise it fails before the engine is called.
pub fn validate_gradients(gradient_len: usize, hessian_len: usize) -> (r: Result<(), XGBError>)
    ensures
        gradient_len == hessian_len <==> r is Ok,
        r is Err ==> r->Err_0.kind == ErrorKind::Validation && r->Err_0.desc@
            == length_mismatch_text(gradient_len as nat, hessian_len as nat),
{
    if gradient_len != hessian_len {
        let mut msg = String::from_str("Mismatch between length of gradient and hessian arrays (");
        push_nat(&mut msg, gradient_len as u64);
        msg.append(" != ");
        push_nat(&mut msg, hessian_len as u64);
        msg.append(")");
        return Err(XGBError::new(ErrorKind::Validation, msg));
    }
    Ok(())
}

/// The error for a model file that does not exist; `path` is its display form.
pub fn not_found(path: &str) -> (r: XGBError)
    ensures
        r.kind == ErrorKind::NotFound,
        r.desc@ == "File not found: "@ + path@,
{
    let mut msg = String::from_str("File not found: ");
    msg.append(path);
    XGBError::new(ErrorKind::NotFound, msg)
}

} // verus!
