use vstd::prelude::*;

verus! {

/// A fault that aborts a single probe's pipeline.  Faults never abort the
/// run: every other probe still runs to completion.
#[derive(Clone, Copy, Debug, PartialEq, Eq, Structural)]
pub enum ProbeError {
    /// The domain name or the subnet string is malformed, or the region token
    /// is not a plain letter token; detected before any network call.
    InvalidInput,
    /// The DNS round trip failed, the server signalled an error, or an answer
    /// record was not of the requested address type.
    ResolutionError,
    /// The geolocation provider could not resolve an address, or a returned
    /// record was malformed or missing a required field.
    LookupError,
}

impl ProbeError {
    /// A short description, usable by callers that print outcomes.
    pub fn describe(&self) -> (r: &'static str)
        ensures
            *self == ProbeError::InvalidInput ==> r@ == "invalid input"@,
            *self == ProbeError::ResolutionError ==> r@ == "resolution error"@,
            *self == ProbeError::LookupError ==> r@ == "lookup error"@,
    {
        match self {
            ProbeError::InvalidInput => "invalid input",
            ProbeError::ResolutionError => "resolution error",
            ProbeError::LookupError => "lookup error",
        }
    }
}

} // verus!
