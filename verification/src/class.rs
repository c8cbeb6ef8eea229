//! The object classes and the classifier.

use crate::addr::Family;
use crate::entry::{RawEntry, RawEntryView};
use crate::text::{is_word, word};
use vstd::prelude::*;

verus! {

/// The classes of objects that a dump holds. A block whose class is none of
/// the first six is `Unknown`.
#[derive(Clone, Copy, Debug, PartialEq, Eq, Hash, Structural)]
pub enum ObjectClass {
    Inetnum,
    Inet6num,
    Mntner,
    Role,
    Person,
    Route,
    Unknown,
}

/// The class that a leading attribute key names.
pub open spec fn class_of_key(key: Seq<u8>) -> ObjectClass {
    if key == word("inetnum"@) {
        ObjectClass::Inetnum
    } else if key == word("inet6num"@) {
        ObjectClass::Inet6num
    } else if key == word("mntner"@) {
        ObjectClass::Mntner
    } else if key == word("role"@) {
        ObjectClass::Role
    } else if key == word("person"@) {
        ObjectClass::Person
    } else if key == word("route"@) {
        ObjectClass::Route
    } else {
        ObjectClass::Unknown
    }
}

/// The class of a block: the class that the key of its first attribute
/// names, and `Unknown` for a block without attributes.
pub open spec fn class_of(entry: RawEntryView) -> ObjectClass {
    if entry.attributes.len() == 0 {
        ObjectClass::Unknown
    } else {
        class_of_key(entry.attributes[0].key)
    }
}

impl ObjectClass {
    /// The address family of a range class.
    pub open spec fn family_of(self) -> Option<Family> {
        match self {
            ObjectClass::Inetnum => Some(Family::V4),
            ObjectClass::Inet6num => Some(Family::V6),
            _ => None,
        }
    }

    /// The address family of a range class; `None` for the other classes.
    pub fn family(self) -> (f: Option<Family>)
        ensures
            f == self.family_of(),
    {
        match self {
            ObjectClass::Inetnum => Some(Family::V4),
            ObjectClass::Inet6num => Some(Family::V6),
            _ => None,
        }
    }
}

/// Tells the class that a leading attribute key names.
pub fn classify_key(key: &[u8]) -> (class: ObjectClass)
    ensures
        class == class_of_key(key@),
{
    if is_word(key, "inetnum") {
        ObjectClass::Inetnum
    } else if is_word(key, "inet6num") {
        ObjectClass::Inet6num
    } else if is_word(key, "mntner") {
        ObjectClass::Mntner
    } else if is_word(key, "role") {
        ObjectClass::Role
    } else if is_word(key, "person") {
        ObjectClass::Person
    } else if is_word(key, "route") {
        ObjectClass::Route
    } else {
        ObjectClass::Unknown
    }
}

/// Tells the class of a block.
pub fn classify(entry: &RawEntry) -> (class: ObjectClass)
    ensures
        class == class_of(entry@),
{
    if entry.attributes.len() == 0 {
        ObjectClass::Unknown
    } else {
        classify_key(entry.attributes[0].key.as_slice())
    }
}

} // verus!
