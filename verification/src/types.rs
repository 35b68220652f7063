//! Error taxonomy of the proving pipeline.

use vstd::prelude::*;
use vstd::string::StringExecFns;

verus! {

/// An error of the proving pipeline.
///
/// `MalformedTask` is a structurally invalid task, detected before any engine
/// call. `Parse` is a sub-input whose raw bytes do not decode, propagated
/// unchanged. `Stwo` is a computation failure of the external engine and
/// `GuestProgram` a failure of the guest computation itself; both trigger a
/// detached failure report. `Other` is any other engine-side error,
/// propagated without reporting.
#[derive(Debug)]
pub enum ProverError {
    MalformedTask(String),
    Parse(String),
    Stwo(String),
    GuestProgram(String),
    Other(String),
}

impl Clone for ProverError {
    fn clone(&self) -> (r: Self)
        ensures
            r == *self,
    {
        match self {
            ProverError::MalformedTask(m) => ProverError::MalformedTask(m.clone()),
            ProverError::Parse(m) => ProverError::Parse(m.clone()),
            ProverError::Stwo(m) => ProverError::Stwo(m.clone()),
            ProverError::GuestProgram(m) => ProverError::GuestProgram(m.clone()),
            ProverError::Other(m) => ProverError::Other(m.clone()),
        }
    }
}

impl ProverError {
    /// The descriptive text of this error.
    pub open spec fn spec_message(self) -> Seq<char> {
        match self {
            ProverError::MalformedTask(m) => "Malformed task: "@ + m@,
            ProverError::Parse(m) => "Failed to parse input: "@ + m@,
            ProverError::Stwo(m) => "Stwo prover error: "@ + m@,
            ProverError::GuestProgram(m) => "Guest program error: "@ + m@,
            ProverError::Other(m) => "Error: "@ + m@,
        }
    }

    /// Renders this error as text.
    pub fn message(&self) -> (r: String)
        ensures
            r@ == self.spec_message(),
    {
        let (prefix, m): (&str, &String) = match self {
            ProverError::MalformedTask(m) => ("Malformed task: ", m),
            ProverError::Parse(m) => ("Failed to parse input: ", m),
            ProverError::Stwo(m) => ("Stwo prover error: ", m),
            ProverError::GuestProgram(m) => ("Guest program error: ", m),
            ProverError::Other(m) => ("Error: ", m),
        };
        let mut s = prefix.to_owned();
        s.append(m.as_str());
        s
    }

    /// Whether a failure of this kind is reported to the external collaborator:
    /// exactly the engine's computation failures and guest-program failures.
    pub open spec fn spec_should_report(self) -> bool {
        self is Stwo || self is GuestProgram
    }

    /// Whether a failure of this kind triggers a detached failure report.
    pub fn should_report(&self) -> (r: bool)
        ensures
            r == self.spec_should_report(),
    {
        match self {
            ProverError::Stwo(_) => true,
            ProverError::GuestProgram(_) => true,
            _ => false,
        }
    }
}

} // verus!
