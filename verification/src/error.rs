//! Why a resolution fails.

use vstd::prelude::*;
use vstd::string::*;
use crate::values::{Asset, EvaluatedEntry, Failure};

verus! {

/// The failure of a resolution. A resolution that fails returns no entries.
#[derive(Clone, Copy, Debug, PartialEq, Eq, Hash, Structural)]
pub enum ResolutionError {
    /// The resolver found no asset for the specifier. The resolver reports
    /// this; resolution hands it on as it came.
    ResolveFailed(Failure),
    /// A candidate that the resolver returned has no evaluable
    /// representation. Resolution itself reports this, and names the asset.
    NotEvaluable(Asset),
    /// Any other failure of a lower layer, handed on as it came.
    Propagated(Failure),
}

/// What stands before the asset's name in the message of `NotEvaluable`.
pub open spec fn not_evaluable_prefix() -> Seq<char> {
    "runtime reference resolved to an asset ("@
}

/// What stands behind the asset's name in the message of `NotEvaluable`.
pub open spec fn not_evaluable_suffix() -> Seq<char> {
    ") that cannot be evaluated"@
}

/// The message that reports an asset without an evaluable representation,
/// where `ident` is the name under which the asset is shown.
pub fn not_evaluable_message(ident: &str) -> (message: String)
    ensures
        message@ == not_evaluable_prefix() + ident@ + not_evaluable_suffix(),
{
    let mut message = String::from_str("runtime reference resolved to an asset (");
    message.append(ident);
    message.append(") that cannot be evaluated");
    message
}

/// The result of a resolution as a mathematical value: the entries in order,
/// or the failure.
pub type Outcome = Result<Seq<EvaluatedEntry>, ResolutionError>;

/// The mathematical value of an executable result.
pub open spec fn outcome_of(result: Result<Vec<EvaluatedEntry>, ResolutionError>) -> Outcome {
    match result {
        Ok(entries) => Ok(entries@),
        Err(error) => Err(error),
    }
}

} // verus!
