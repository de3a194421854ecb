//! The error taxonomy shared by every layer.

use vstd::prelude::*;

verus! {

/// Errors surfaced by the repository, the publisher and the service.
///
/// Every layer propagates these upward unchanged: no retry, no downgrade.
#[derive(Debug)]
pub enum UnsError {
    /// Storage access failure (reading or writing the tag source).
    Repository(String),
    /// Transport failure while talking to the broker.
    Mqtt(String),
    /// Malformed structured data in a tag source.
    Serialization(String),
    /// A referenced tag path does not exist.
    NotFound(String),
    /// Any other error.
    Other(String),
}

impl UnsError {
    /// The error as text: the kind, then the detail.
    pub fn message(&self) -> (r: String)
        ensures
            (match self {
                UnsError::Repository(m) => r@ == "Repository error: "@ + m@,
                UnsError::Mqtt(m) => r@ == "MQTT error: "@ + m@,
                UnsError::Serialization(m) => r@ == "Serialization error: "@ + m@,
                UnsError::NotFound(m) => r@ == "Not found: "@ + m@,
                UnsError::Other(m) => r@ == "Error: "@ + m@,
            }),
    {
        match self {
            UnsError::Repository(m) => String::from_str("Repository error: ").concat(m.as_str()),
            UnsError::Mqtt(m) => String::from_str("MQTT error: ").concat(m.as_str()),
            UnsError::Serialization(m) => String::from_str("Serialization error: ").concat(
                m.as_str(),
            ),
            UnsError::NotFound(m) => String::from_str("Not found: ").concat(m.as_str()),
            UnsError::Other(m) => String::from_str("Error: ").concat(m.as_str()),
        }
    }
}

} // verus!
