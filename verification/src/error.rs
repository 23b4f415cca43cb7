//! The error taxonomy: three leaf error kinds plus one aggregate error type.
//! Errors are pure data, safe to clone, compare and order; each carries the
//! structured facts needed to build a precise, stable textual message.

use vstd::prelude::*;
use vstd::string::StringExecFns;

use crate::dynamic_type::DynamicType;

verus! {

/// Raised when a conversion targets exactly one expected variant and the
/// value holds a different one.
#[derive(Copy, Clone, PartialEq, Eq, Structural, PartialOrd, Ord, Hash, Debug)]
pub struct TypeError {
    pub expected_type: DynamicType,
    pub found_type: DynamicType,
}

impl TypeError {
    /// The message of this error, as a character sequence.
    pub open spec fn message_spec(self) -> Seq<char> {
        "Unexpected value of type "@ + self.found_type.name_spec() + ": expected "@
            + self.expected_type.name_spec() + "."@
    }

    /// The stable textual message of this error.
    pub fn message(&self) -> (r: String)
        ensures
            r@ == self.message_spec(),
    {
        let mut s = String::from_str("Unexpected value of type ");
        s.append(self.found_type.name());
        s.append(": expected ");
        s.append(self.expected_type.name());
        s.append(".");
        proof {
            assert(s@ =~= self.message_spec());
        }
        s
    }
}

/// The `", "`-separated listing of a sequence of tag names, as it appears in
/// the message of an `UnsupportedTypeError`.
pub open spec fn type_listing_spec(tags: Seq<DynamicType>) -> Seq<char>
    decreases tags.len(),
{
    if tags.len() == 0 {
        Seq::<char>::empty()
    } else {
        type_listing_spec(tags.drop_last()) + tags.last().name_spec() + ", "@
    }
}

/// Raised when an operation accepts a set of variants and the value's tag is
/// outside that set. Favored over `TypeError` when several tags are accepted.
#[derive(Clone, PartialEq, Eq, PartialOrd, Ord, Hash, Debug)]
pub struct UnsupportedTypeError {
    pub expected_types: Vec<DynamicType>,
    pub found_type: DynamicType,
}

impl UnsupportedTypeError {
    /// The message of this error: it enumerates the accepted tags in the
    /// supplied order, followed by the found tag, as a character sequence.
    pub open spec fn message_spec(self) -> Seq<char> {
        "Unexpected value: expected any of types ["@ + type_listing_spec(self.expected_types@)
            + "], found "@ + self.found_type.name_spec() + "."@
    }

    /// The stable textual message of this error.
    pub fn message(&self) -> (r: String)
        ensures
            r@ == self.message_spec(),
    {
        let mut s = String::from_str("Unexpected value: expected any of types [");
        let ghost prefix: Seq<char> = s@;
        let mut i: usize = 0;
        while i < self.expected_types.len()
            invariant
                i <= self.expected_types@.len(),
                s@ == prefix + type_listing_spec(self.expected_types@.subrange(0, i as int)),
            decreases self.expected_types@.len() - i,
        {
            proof {
                assert(self.expected_types@.subrange(0, i as int)
                    =~= self.expected_types@.subrange(0, i + 1).drop_last());
            }
            s.append(self.expected_types[i].name());
            s.append(", ");
            proof {
                assert(s@ =~= prefix + type_listing_spec(
                    self.expected_types@.subrange(0, i + 1)));
            }
            i = i + 1;
        }
        s.append("], found ");
        s.append(self.found_type.name());
        s.append(".");
        proof {
            assert(self.expected_types@.subrange(0, self.expected_types@.len() as int)
                =~= self.expected_types@);
            assert(s@ =~= self.message_spec());
        }
        s
    }
}

/// Raised when a map lookup by key finds no entry.
#[derive(Clone, PartialEq, Eq, PartialOrd, Ord, Hash, Debug)]
pub struct MissingKeyError {
    pub payload_key: String,
}

impl MissingKeyError {
    /// The message of this error, as a character sequence.
    pub open spec fn message_spec(self) -> Seq<char> {
        "Key "@ + self.payload_key@ + " missing in Map."@
    }

    /// The stable textual message of this error.
    pub fn message(&self) -> (r: String)
        ensures
            r@ == self.message_spec(),
    {
        let mut s = String::from_str("Key ");
        s.append(self.payload_key.as_str());
        s.append(" missing in Map.");
        proof {
            assert(s@ =~= self.message_spec());
        }
        s
    }
}

/// The aggregate error type: wraps exactly one of the three leaf kinds.
/// Every leaf kind converts losslessly into it.
#[derive(Clone, PartialEq, Eq, PartialOrd, Ord, Hash, Debug)]
pub enum Error {
    TypeError(TypeError),
    UnsupportedTypeError(UnsupportedTypeError),
    MissingKeyError(MissingKeyError),
}

impl Error {
    /// The message of this error: that of the wrapped leaf error.
    pub open spec fn message_spec(self) -> Seq<char> {
        match self {
            Error::TypeError(e) => e.message_spec(),
            Error::UnsupportedTypeError(e) => e.message_spec(),
            Error::MissingKeyError(e) => e.message_spec(),
        }
    }

    /// The stable textual message of this error.
    pub fn message(&self) -> (r: String)
        ensures
            r@ == self.message_spec(),
    {
        match self {
            Error::TypeError(e) => e.message(),
            Error::UnsupportedTypeError(e) => e.message(),
            Error::MissingKeyError(e) => e.message(),
        }
    }
}

impl From<TypeError> for Error {
    /// Wraps a `TypeError` into the aggregate error, losslessly.
    fn from(value: TypeError) -> (r: Self) {
        Error::TypeError(value)
    }
}

impl vstd::std_specs::convert::FromSpecImpl<TypeError> for Error {
    open spec fn obeys_from_spec() -> bool {
        true
    }

    open spec fn from_spec(value: TypeError) -> Self {
        Error::TypeError(value)
    }
}

impl From<UnsupportedTypeError> for Error {
    /// Wraps an `UnsupportedTypeError` into the aggregate error, losslessly.
    fn from(value: UnsupportedTypeError) -> (r: Self) {
        Error::UnsupportedTypeError(value)
    }
}

impl vstd::std_specs::convert::FromSpecImpl<UnsupportedTypeError> for Error {
    open spec fn obeys_from_spec() -> bool {
        true
    }

    open spec fn from_spec(value: UnsupportedTypeError) -> Self {
        Error::UnsupportedTypeError(value)
    }
}

impl From<MissingKeyError> for Error {
    /// Wraps a `MissingKeyError` into the aggregate error, losslessly.
    fn from(value: MissingKeyError) -> (r: Self) {
        Error::MissingKeyError(value)
    }
}

impl vstd::std_specs::convert::FromSpecImpl<MissingKeyError> for Error {
    open spec fn obeys_from_spec() -> bool {
        true
    }

    open spec fn from_spec(value: MissingKeyError) -> Self {
        Error::MissingKeyError(value)
    }
}

} // verus!
