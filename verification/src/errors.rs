//! Error taxonomy of the conversion run.
use vstd::prelude::*;

verus! {

/// Errors that abort a conversion run.
#[derive(Clone, Copy, PartialEq, Eq, Structural, Debug)]
pub enum TransError {
    /// No registered style matches (auto), or a named style is absent.
    StyleDetectionFailure,
    /// A read, write, copy or create failed (raised only by the caller that
    /// performs the I/O; the library itself never raises it).
    IoFailure,
    /// An inner-layer file name holds no digit run.
    NumericTokenMissing,
    /// A registry pattern does not compile.
    MalformedPattern,
}

} // verus!
