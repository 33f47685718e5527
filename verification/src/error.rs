//! The errors the library reports.
use vstd::prelude::*;

verus! {

/// An error of the knowledge store. Each variant carries its message.
#[derive(Debug, Clone)]
pub enum AtlasError {
    /// The request is malformed or contradicts itself.
    Validation(String),
    /// The project context is missing or unsuitable for the operation.
    Context(String),
    /// The stored data is unusable.
    Storage(String),
    /// The configuration could not be read or written.
    Config(String),
    /// A named atom does not exist.
    NotFound(String),
}

impl AtlasError {
    /// The message the error carries.
    pub open spec fn message(&self) -> Seq<char> {
        match self {
            AtlasError::Validation(m) => m@,
            AtlasError::Context(m) => m@,
            AtlasError::Storage(m) => m@,
            AtlasError::Config(m) => m@,
            AtlasError::NotFound(m) => m@,
        }
    }

    /// The text that introduces the message when the error is shown.
    pub open spec fn prefix(&self) -> Seq<char> {
        match self {
            AtlasError::Validation(_) => "Validation error: "@,
            AtlasError::Context(_) => "Context error: "@,
            AtlasError::Storage(_) => "Storage error: "@,
            AtlasError::Config(_) => "Configuration error: "@,
            AtlasError::NotFound(_) => "Not found: "@,
        }
    }

    /// A copy of the error.
    pub fn duplicate(&self) -> (r: Self)
        ensures
            r == *self,
    {
        match self {
            AtlasError::Validation(m) => AtlasError::Validation(m.clone()),
            AtlasError::Context(m) => AtlasError::Context(m.clone()),
            AtlasError::Storage(m) => AtlasError::Storage(m.clone()),
            AtlasError::Config(m) => AtlasError::Config(m.clone()),
            AtlasError::NotFound(m) => AtlasError::NotFound(m.clone()),
        }
    }

    /// The error as it is shown to the user: its kind, then its message.
    pub fn to_string(&self) -> (r: String)
        ensures
            r@ == self.prefix() + self.message(),
    {
        let (mut s, m) = match self {
            AtlasError::Validation(m) => (String::from_str("Validation error: "), m),
            AtlasError::Context(m) => (String::from_str("Context error: "), m),
            AtlasError::Storage(m) => (String::from_str("Storage error: "), m),
            AtlasError::Config(m) => (String::from_str("Configuration error: "), m),
            AtlasError::NotFound(m) => (String::from_str("Not found: "), m),
        };
        s.append(m.as_str());
        s
    }
}

/// A validation error carrying `msg`.
pub fn validation(msg: &str) -> (e: AtlasError)
    ensures
        e.message() == msg@,
        e is Validation,
{
    AtlasError::Validation(String::from_str(msg))
}

} // verus!
