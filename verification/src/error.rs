//! Parse errors: what becomes of a block that is not a well-formed object of
//! a known class.

use crate::class::ObjectClass;
use vstd::prelude::*;

verus! {

/// Why a block was refused.
#[derive(Clone, Copy, Debug, PartialEq, Eq, Hash, Structural)]
pub enum ParseReason {
    /// The key of the first attribute names no known class, or the block
    /// holds no attribute.
    UnknownClass,
    /// A mandatory attribute is absent.
    MissingAttribute,
    /// A single-valued attribute occurs more than once.
    RepeatedAttribute,
    /// The address range is neither `first - last` nor `address/length`, or
    /// one of its parts is malformed.
    MalformedRange,
    /// The first address of the range lies above the last.
    InvertedRange,
    /// A mandatory time stamp cannot be read.
    MalformedDate,
}

/// The record of a refused block: the class it was read as, the offset at
/// which it started, the reason, and the key of the attribute at fault
/// (empty where the class is unknown).
#[derive(Clone, Debug, PartialEq, Eq)]
pub struct ParseError {
    pub class: ObjectClass,
    pub offset: u64,
    pub reason: ParseReason,
    pub attribute: Vec<u8>,
}

/// The mathematical content of a [`ParseError`].
pub struct ParseErrorView {
    pub class: ObjectClass,
    pub offset: u64,
    pub reason: ParseReason,
    pub attribute: Seq<u8>,
}

impl View for ParseError {
    type V = ParseErrorView;

    open spec fn view(&self) -> ParseErrorView {
        ParseErrorView {
            class: self.class,
            offset: self.offset,
            reason: self.reason,
            attribute: self.attribute@,
        }
    }
}

} // verus!
