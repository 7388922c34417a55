//! Failure conditions of the codec and of attribute lookup.
use vstd::prelude::*;

verus! {

/// Why a byte stream could not be decoded. A decode that fails returns nothing
/// else: no partial message is handed out.
#[derive(Clone, Copy, Debug, PartialEq, Eq, Structural)]
pub enum ParseError {
    /// Fewer than eight bytes were available for the header.
    TruncatedHeader,
    /// A tag byte that is neither a delimiter tag nor a value tag.
    UnknownTag(u8),
    /// The stream ended before a declared length was satisfied, or before the
    /// end-of-attributes tag.
    UnexpectedEndOfStream,
    /// A value with an empty name where the group holds no attribute yet.
    OrphanContinuation,
    /// A known tag at a place where the grammar does not allow it: a value
    /// before the first group, a collection marker outside a collection, a
    /// value in a collection that no member name announces, or a delimiter or
    /// the end-of-attributes tag inside a collection.
    UnexpectedTag(u8),
    /// A value field whose bytes do not fit its tag, or a name that is not
    /// UTF-8.
    InvalidValue,
}

/// Failure of a lookup or of a typed access. It concerns that one call only;
/// the model stays usable.
#[derive(Debug, PartialEq, Eq)]
pub enum IppError {
    /// No attribute of that name in the group.
    AttributeNotFound(String),
    /// The attribute exists but its value is of another kind, or is an
    /// out-of-band marker.
    InvalidAttributeType,
}

} // verus!
