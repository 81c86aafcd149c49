//! The ways in which encoding or decoding a chunk fails.

use vstd::prelude::*;

verus! {

#[derive(Debug, Clone, Copy, PartialEq, Eq, Structural)]
pub enum Error {
    /// A document holds a value that has no slot mapping (Decimal128) or
    /// that cannot be written back (a database pointer).
    Unsupported,
    /// The metric count of a chunk differs from the number of slots of
    /// its reference document.
    SchemaMismatch,
    /// The run-length payload ends before all values are read.
    Truncated,
    /// Bytes are left after the last value of the payload.
    TrailingBytes,
    /// A length, a field or a binary subtype of a framed record is not
    /// what the format asks for.
    BadEnvelope,
    /// A row has fewer or more slots than the reference document.
    SlotCountMismatch,
    /// The compressor or the decompressor failed.
    Compression,
}

impl Error {
    /// A short description, as a sentence fragment: the text that
    /// `description` gives for this error.
    pub fn message(&self) -> (s: &'static str)
        ensures
            s@ == self.description(),
    {
        match self {
            Error::Unsupported => "unsupported value in document",
            Error::SchemaMismatch => "metric count differs from the reference document",
            Error::Truncated => "metric payload is truncated",
            Error::TrailingBytes => "bytes left after the metric payload",
            Error::BadEnvelope => "malformed record",
            Error::SlotCountMismatch => "row length differs from the reference document",
            Error::Compression => "compression failed",
        }
    }

    /// The text that describes the error.
    pub open spec fn description(&self) -> Seq<char> {
        match self {
            Error::Unsupported => "unsupported value in document"@,
            Error::SchemaMismatch => "metric count differs from the reference document"@,
            Error::Truncated => "metric payload is truncated"@,
            Error::TrailingBytes => "bytes left after the metric payload"@,
            Error::BadEnvelope => "malformed record"@,
            Error::SlotCountMismatch => "row length differs from the reference document"@,
            Error::Compression => "compression failed"@,
        }
    }
}

/// Each error has a description of its own: two errors with one text are
/// one error.
pub proof fn lemma_descriptions_differ(a: Error, b: Error)
    requires
        a.description() == b.description(),
    ensures
        a == b,
{
    reveal_strlit("unsupported value in document");
    reveal_strlit("metric count differs from the reference document");
    reveal_strlit("metric payload is truncated");
    reveal_strlit("bytes left after the metric payload");
    reveal_strlit("malformed record");
    reveal_strlit("row length differs from the reference document");
    reveal_strlit("compression failed");
    let x = a.description();
    let y = b.description();
    assert(x.len() == y.len());
    assert(x[0] == y[0]);
}

} // verus!
