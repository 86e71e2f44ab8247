use vstd::prelude::*;

verus! {

/// Error raised while building a wire message.
///
/// Constructing a get-request serialises the item identifier; an identifier
/// without a wire encoding is the only way that construction can fail.  No
/// error escapes the fetcher: a failed construction is folded back into the
/// state machine as a peer-scoped absence.
#[derive(Clone, Copy, PartialEq, Eq, Debug, Structural)]
pub enum Error {
    /// The item identifier could not be serialised for the wire.
    IdSerialization,
}

impl Error {
    /// A short human-readable rendering, for the reactor's logging.
    pub fn describe(&self) -> (text: String)
        ensures
            text@ == "failed to serialise item identifier"@,
    {
        match self {
            Error::IdSerialization => "failed to serialise item identifier".to_string(),
        }
    }
}

} // verus!
