//! Error taxonomy of the monitor core.
//!
//! Only two conditions are fatal for a refresh tick and must be told apart by
//! the caller: the counter source could not be read at all, or it produced
//! text that does not have the expected shape. A counter that ran backwards
//! between two samples is *not* an error of this kind; it is recovered
//! locally by the delta engine, which clamps the difference to zero and
//! reports the sample pair as degraded.

use vstd::prelude::*;

verus! {

/// Why a refresh tick could not produce a snapshot.
#[derive(Clone, Copy, Debug, PartialEq, Eq, Structural)]
pub enum SampleError {
    /// The external collector could not obtain the raw counter text at all
    /// (an I/O failure, e.g. on a host without the kernel counter files).
    SourceUnavailable,
    /// Raw text was obtained but does not match the expected shape: a field
    /// is missing, or a number was expected and something else was found.
    MalformedSource,
}

} // verus!
