//! Error kinds shared by the parser, the extractor and the builder.

use vstd::prelude::*;

verus! {

/// Everything that can go wrong while reading or assembling a container.
///
/// All values are ordinary results handed back to the caller; no operation of
/// this crate aborts the process on malformed input.
#[derive(Clone, Copy, Debug, PartialEq, Eq, Structural)]
pub enum RipoError {
    /// The stream does not start with the container magic.
    NotAContainer,
    /// The stream is shorter than the header and descriptor table require.
    TruncatedHeader,
    /// A descriptor carries a CPU family code outside the closed set.
    UnknownArchitecture,
    /// A descriptor's byte range reaches past the end of the source.
    OutOfBounds,
    /// An underlying read or seek failed; raised by callers that do I/O.
    IoError,
    /// The builder was asked to assemble a container from no entries.
    EmptyInput,
}

} // verus!
