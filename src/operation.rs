//! Requests as they arrive, and the operations they name.
use vstd::prelude::*;

verus! {

/// One decoded request: an operation name, a key, and for writes the data.
pub struct CacheOpRequest {
    pub operation: String,
    pub key: String,
    pub data: Option<String>,
}

/// The operations the cache service performs.
#[derive(PartialEq, Eq, Structural, Clone, Copy, Debug)]
pub enum Operation {
    Put,
    Get,
}

/// What `str::to_lowercase` returns for a string.
pub uninterp spec fn lower_of(s: Seq<char>) -> Seq<char>;

/// Relies on str::to_lowercase: the Unicode lowercase of the string, which
/// depends on its characters alone.
#[verifier::external_body]
fn lowercase(s: &str) -> (r: String)
    ensures
        r@ == lower_of(s@),
{
    s.to_lowercase()
}

/// The operation an already lowercased name stands for.
pub open spec fn op_of(s: Seq<char>) -> Option<Operation> {
    if s == "put"@ {
        Some(Operation::Put)
    } else if s == "get"@ {
        Some(Operation::Get)
    } else {
        None
    }
}

impl Operation {
    /// Recognises an operation name, ignoring case.
    pub fn from_string(value: String) -> (r: Option<Operation>)
        ensures
            r == op_of(lower_of(value@)),
    {
        let lower = lowercase(value.as_str());
        Operation::from_lowercase(&lower)
    }

    /// Recognises a lowercased operation name: `put` or `get`.
    pub fn from_lowercase(s: &String) -> (r: Option<Operation>)
        ensures
            r == op_of(s@),
    {
        if *s == String::from_str("put") {
            Some(Operation::Put)
        } else if *s == String::from_str("get") {
            Some(Operation::Get)
        } else {
            None
        }
    }
}

} // verus!
