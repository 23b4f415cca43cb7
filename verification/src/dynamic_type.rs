//! The `DynamicType` enum: a closed, copyable, totally-ordered, hashable tag
//! identifying which variant a `Dynamic` value currently holds.

use vstd::prelude::*;

verus! {

/// One tag per `Dynamic` variant; used for introspection and for building
/// precise error messages.
#[derive(Copy, Clone, PartialEq, Eq, Structural, PartialOrd, Ord, Hash, Debug)]
pub enum DynamicType {
    Str,
    Int,
    Bool,
    Float,
    Array,
    Limits,
    Timestamp,
    Mapping,
    Null,
}

impl DynamicType {
    /// The short, stable, human-readable name of this tag, as a character
    /// sequence. Error messages quote these names verbatim.
    pub open spec fn name_spec(self) -> Seq<char> {
        match self {
            DynamicType::Str => "Str"@,
            DynamicType::Int => "Int"@,
            DynamicType::Bool => "Bool"@,
            DynamicType::Float => "Float"@,
            DynamicType::Array => "Array"@,
            DynamicType::Limits => "Limits"@,
            DynamicType::Timestamp => "Timestamp"@,
            DynamicType::Mapping => "Map"@,
            DynamicType::Null => "Null"@,
        }
    }

    /// The short, stable, human-readable name of this tag.
    pub fn name(&self) -> (r: &'static str)
        ensures
            r@ == self.name_spec(),
    {
        match self {
            DynamicType::Str => "Str",
            DynamicType::Int => "Int",
            DynamicType::Bool => "Bool",
            DynamicType::Float => "Float",
            DynamicType::Array => "Array",
            DynamicType::Limits => "Limits",
            DynamicType::Timestamp => "Timestamp",
            DynamicType::Mapping => "Map",
            DynamicType::Null => "Null",
        }
    }
}

impl Default for DynamicType {
    /// The default tag is `Null`, matching the default `Dynamic` value.
    fn default() -> (r: Self)
        ensures
            r == DynamicType::Null,
    {
        DynamicType::Null
    }
}

} // verus!
