//! The answer to a request for the current dividend.

use crate::values::tx_db::SourceAmount;
use vstd::prelude::*;
use vstd::string::*;

verus! {

/// An answer to a request.
#[derive(Clone, Copy, Debug, PartialEq, Eq, Structural)]
pub enum BcaRespTypeV0 {
    /// The current dividend.
    CurrentUd(SourceAmount),
}

/// Why a request could not be answered.
#[derive(Clone, Debug, PartialEq, Eq)]
pub struct ExecReqTypeError(pub String);

/// The answer to a request for the current dividend, given what the
/// blockchain's current state says of it: the dividend, or the error
/// `no blockchain` where there is no current state.
pub fn exec_req_current_ud(current_ud: Option<SourceAmount>) -> (r: Result<
    BcaRespTypeV0,
    ExecReqTypeError,
>)
    ensures
        match current_ud {
            Some(ud) => r == Ok::<BcaRespTypeV0, ExecReqTypeError>(BcaRespTypeV0::CurrentUd(ud)),
            None => r matches Err(e) && e.0@ == "no blockchain"@,
        },
{
    if let Some(current_ud) = current_ud {
        Ok(BcaRespTypeV0::CurrentUd(current_ud))
    } else {
        Err(ExecReqTypeError(String::from_str("no blockchain")))
    }
}

} // verus!
