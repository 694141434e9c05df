use vstd::prelude::*;

verus! {

/// An error of the reference-resolution engine.
#[derive(Debug)]
pub enum SparseError {
    /// The in-document pointer names no value.
    UnknownPath(String),
    /// The value behind a reference changed since it was last resolved.
    OutdatedPointer,
    /// A reference that was never resolved was dereferenced.
    BadPointer,
    /// The store has no root document.
    NoRoot,
    /// An exclusive access to the store was asked for while another was held. A root owns
    /// its store and saving takes it by `&mut`, so Rust's borrowing rules exclude it; the
    /// variant is kept for callers that share a store themselves.
    StateAlreadyBorrowed,
    /// A reference names another file, but the store is in-memory only.
    NoDistantFile,
    /// The depth bound of recursive resolution was reached.
    CyclicRef,
    /// A document is already in the store (adding one is idempotent, so the library itself
    /// does not report it).
    AlreadyExistsInState,
    /// A document is not in the store.
    NotInState,
    /// A file suffix is not one that is recognised, where one is required (formats are
    /// detected from content here, so the library itself does not report it).
    BadExtension,
    /// The document at this path must be loaded into the store before resolution can go on.
    FileNeeded(String),
    /// A document's version cannot be increased any further.
    VersionExhausted,
    /// A document could not be parsed; the parser's message.
    Parse(String),
    /// A file could not be read or written; the system's message.
    Io(String),
}

} // verus!
