use vstd::prelude::*;

verus! {

/// Failure taxonomy of the persistence core. Every operation reports the
/// stage that failed through exactly one of these variants; the host turns
/// the variant into a human-readable message.
#[derive(Clone, Copy, Debug, PartialEq, Eq, Structural)]
pub enum StoreError {
    /// The base directory cannot be resolved or created; nothing can proceed.
    Init,
    /// The requested project has no file under the base directory.
    NotFound,
    /// The compressed stream is truncated, corrupted, or not a stream at all.
    Codec,
    /// The decompressed bytes are not valid text in the expected encoding.
    Encoding,
    /// The document text is missing a required field or has the wrong shape.
    Format,
    /// A generic read, write, or scan failure reported by the host.
    Io,
}

impl StoreError {
    /// A short description of the stage that failed, for the host to show.
    pub fn message(&self) -> (r: &'static str)
        ensures
            r@ == (match *self {
                StoreError::Init => "failed to resolve or create the canvases directory"@,
                StoreError::NotFound => "canvas not found"@,
                StoreError::Codec => "decompression failed: the stream is corrupt or truncated"@,
                StoreError::Encoding => "the decompressed bytes are not valid text"@,
                StoreError::Format => "the document is missing a required field or has the wrong shape"@,
                StoreError::Io => "a read or write on the canvases directory failed"@,
            }),
    {
        match *self {
            StoreError::Init => "failed to resolve or create the canvases directory",
            StoreError::NotFound => "canvas not found",
            StoreError::Codec => "decompression failed: the stream is corrupt or truncated",
            StoreError::Encoding => "the decompressed bytes are not valid text",
            StoreError::Format => "the document is missing a required field or has the wrong shape",
            StoreError::Io => "a read or write on the canvases directory failed",
        }
    }
}

} // verus!
