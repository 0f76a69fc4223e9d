//! A model of the host interpreter's values as the bridge reads and builds
//! them: byte-strings, integers, booleans, tuples, lists and dictionary
//! entries, plus the single exception shape every failure is projected to.

use vstd::prelude::*;

verus! {

/// A host-native value at the marshalling boundary.
#[derive(Debug, PartialEq, Eq)]
pub enum HostValue {
    /// A host byte-string.
    Bytes(Vec<u8>),
    /// A host non-negative integer.
    Int(u64),
    /// A host boolean.
    Bool(bool),
    /// A host tuple of any arity.
    Tuple(Vec<HostValue>),
    /// A host list.
    List(Vec<HostValue>),
    /// The host's unit value.
    Nothing,
}

/// One entry of a host dictionary, in the dictionary's insertion order.
#[derive(Debug, PartialEq, Eq)]
pub struct HostEntry {
    pub key: HostValue,
    pub value: HostValue,
}

/// The one host-observable exception shape: every internal failure crosses
/// the boundary as its display text, verbatim.
pub struct HostException {
    pub message: String,
}

/// A marshalling failure: a host-provided value had the wrong shape at the
/// point of extraction. Indices say which dictionary entry was malformed.
#[derive(Clone, Copy, Debug, PartialEq, Eq, Structural)]
pub enum MarshalError {
    /// A dictionary key was not a byte-string.
    KeyNotBytes { index: usize },
    /// A dictionary value was not a byte-string.
    ValueNotBytes { index: usize },
    /// A dictionary value was not a pair where a (value, ttl) pair was owed.
    ValueNotPair { index: usize },
    /// The second element of a (value, ttl) pair was not an integer.
    TtlNotInt { index: usize },
    /// A lone value was not a byte-string.
    NotBytes,
}

impl MarshalError {
    /// The failure's display text.
    pub fn message(&self) -> (s: &'static str)
        ensures
            s@ =~= self.message_spec(),
    {
        match self {
            MarshalError::KeyNotBytes { .. } => "dictionary key is not a byte string",
            MarshalError::ValueNotBytes { .. } => "dictionary value is not a byte string",
            MarshalError::ValueNotPair { .. } => "dictionary value is not a (value, ttl) pair",
            MarshalError::TtlNotInt { .. } => "ttl is not an unsigned integer",
            MarshalError::NotBytes => "value is not a byte string",
        }
    }

    /// The display text owed for each failure.
    pub open spec fn message_spec(&self) -> Seq<char> {
        match self {
            MarshalError::KeyNotBytes { .. } => "dictionary key is not a byte string"@,
            MarshalError::ValueNotBytes { .. } => "dictionary value is not a byte string"@,
            MarshalError::ValueNotPair { .. } => "dictionary value is not a (value, ttl) pair"@,
            MarshalError::TtlNotInt { .. } => "ttl is not an unsigned integer"@,
            MarshalError::NotBytes => "value is not a byte string"@,
        }
    }
}

} // verus!
