use vstd::prelude::*;

verus! {

/// The failure taxonomy of the pipeline. Every fatal condition is reported
/// through one of these variants; a policy failure (a material that collects
/// errors) is not an `Error` but a normal outcome.
#[derive(Debug, Clone)]
pub enum Error {
    /// A run whose aggregate verdict is failure.
    Failure(String),
    /// The source bytes could not be read or decoded.
    Io(String),
    /// A malformed TSV table.
    Csv(String),
    /// A malformed JSON document.
    SerdeJson(String),
    /// A malformed SPDX tag-value document.
    Spdx(String),
    /// A malformed SPDX license expression.
    SpdxExpression(String),
    /// A malformed XML document.
    Minidom(String),
    /// A version attribute that is not an unsigned integer.
    ParseInt(String),
    /// A failure raised inside a curation or policy hook.
    Engine(String),
}

} // verus!
