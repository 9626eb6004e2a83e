use vstd::prelude::*;

verus! {

/// A user-settable value that was given an unusable value.
#[derive(Clone, Copy, Debug, PartialEq, Eq, Structural)]
pub enum Setting {
    Compressor,
    Threads,
    Quality,
}

/// Everything that can go wrong in the library.
#[derive(Clone, Copy, Debug, PartialEq, Eq, Structural)]
pub enum Error {
    /// A parameter held a value that is out of range or unparsable.
    InvalidParameterValue(Setting),
    /// No include pattern was given.
    InvalidUsage,
    /// An include pattern is not a valid glob.
    InvalidIncludeFilter,
    /// A path cannot be represented as text.
    InvalidCharactersInPath,
    /// The codec reported a failure while encoding.
    EncoderFailure,
    /// The algorithm is carried out by an external encoder process, not in-process.
    ExternalEncoder,
}

} // verus!
