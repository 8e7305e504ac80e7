//! The discriminant that tags every stored value.

use vstd::prelude::*;

verus! {

/// The type tag of a stored value.
#[derive(Debug, Clone, Copy, PartialEq, Eq, Structural)]
pub enum KeyType {
    String,
    Integer,
    Long,
    Double,
    Bool,
    Vector,
    FloatVector,
}

impl KeyType {
    /// The numeric code of the tag, as it is written into a slot.
    pub open spec fn spec_code(self) -> int {
        match self {
            KeyType::String => 0,
            KeyType::Integer => 1,
            KeyType::Long => 2,
            KeyType::Double => 3,
            KeyType::Bool => 4,
            KeyType::Vector => 5,
            KeyType::FloatVector => 6,
        }
    }

    /// The tag with the given code, if there is one.
    pub open spec fn spec_from_code(code: int) -> Option<KeyType> {
        if code == 0 {
            Some(KeyType::String)
        } else if code == 1 {
            Some(KeyType::Integer)
        } else if code == 2 {
            Some(KeyType::Long)
        } else if code == 3 {
            Some(KeyType::Double)
        } else if code == 4 {
            Some(KeyType::Bool)
        } else if code == 5 {
            Some(KeyType::Vector)
        } else if code == 6 {
            Some(KeyType::FloatVector)
        } else {
            None
        }
    }

    /// Whether values of this type are fixed-width scalars, which a slot can
    /// hold inline.
    pub open spec fn spec_is_scalar(self) -> bool {
        self == KeyType::Integer || self == KeyType::Long || self == KeyType::Double || self
            == KeyType::Bool
    }

    /// The numeric code of the tag.
    pub fn code(self) -> (c: u8)
        ensures
            c == self.spec_code(),
    {
        match self {
            KeyType::String => 0,
            KeyType::Integer => 1,
            KeyType::Long => 2,
            KeyType::Double => 3,
            KeyType::Bool => 4,
            KeyType::Vector => 5,
            KeyType::FloatVector => 6,
        }
    }

    /// The tag with the given code; `None` for a code that names no tag.
    pub fn from_code(code: u8) -> (t: Option<KeyType>)
        ensures
            t == Self::spec_from_code(code as int),
    {
        match code {
            0 => Some(KeyType::String),
            1 => Some(KeyType::Integer),
            2 => Some(KeyType::Long),
            3 => Some(KeyType::Double),
            4 => Some(KeyType::Bool),
            5 => Some(KeyType::Vector),
            6 => Some(KeyType::FloatVector),
            _ => None,
        }
    }

    /// The name of the tag.
    pub open spec fn spec_label(self) -> Seq<char> {
        match self {
            KeyType::String => "String"@,
            KeyType::Integer => "Integer"@,
            KeyType::Long => "Long"@,
            KeyType::Double => "Double"@,
            KeyType::Bool => "Bool"@,
            KeyType::Vector => "Vector"@,
            KeyType::FloatVector => "FloatVector"@,
        }
    }

    /// The name of the tag.
    pub fn label(self) -> (name: &'static str)
        ensures
            name@ == self.spec_label(),
    {
        match self {
            KeyType::String => "String",
            KeyType::Integer => "Integer",
            KeyType::Long => "Long",
            KeyType::Double => "Double",
            KeyType::Bool => "Bool",
            KeyType::Vector => "Vector",
            KeyType::FloatVector => "FloatVector",
        }
    }

    /// Whether values of this type are fixed-width scalars.
    pub fn is_scalar(self) -> (b: bool)
        ensures
            b == self.spec_is_scalar(),
    {
        match self {
            KeyType::Integer | KeyType::Long | KeyType::Double | KeyType::Bool => true,
            _ => false,
        }
    }
}

/// Decoding a code that `code` produced gives the tag back.
pub proof fn lemma_code_round_trip(t: KeyType)
    ensures
        0 <= t.spec_code() <= 6,
        KeyType::spec_from_code(t.spec_code()) == Some(t),
{
}

} // verus!
