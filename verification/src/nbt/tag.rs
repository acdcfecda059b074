//! The one-byte discriminants of the tree format.

use vstd::prelude::*;

verus! {

/// The kind of a tree node, or the end marker.
#[derive(Debug, Clone, Copy, PartialEq, Eq, Structural)]
pub enum Tag {
    End,
    Byte,
    Short,
    Int,
    Long,
    Float,
    Double,
    ByteArray,
    String,
    List,
    Compound,
    IntArray,
    LongArray,
}

impl Tag {
    /// The byte that stands for the tag.
    pub open spec fn byte(self) -> u8 {
        match self {
            Tag::End => 0,
            Tag::Byte => 1,
            Tag::Short => 2,
            Tag::Int => 3,
            Tag::Long => 4,
            Tag::Float => 5,
            Tag::Double => 6,
            Tag::ByteArray => 7,
            Tag::String => 8,
            Tag::List => 9,
            Tag::Compound => 10,
            Tag::IntArray => 11,
            Tag::LongArray => 12,
        }
    }

    /// The tag that the byte `b` stands for, if it stands for one.
    pub open spec fn of_byte(b: u8) -> Option<Tag> {
        if b == 0 {
            Some(Tag::End)
        } else if b == 1 {
            Some(Tag::Byte)
        } else if b == 2 {
            Some(Tag::Short)
        } else if b == 3 {
            Some(Tag::Int)
        } else if b == 4 {
            Some(Tag::Long)
        } else if b == 5 {
            Some(Tag::Float)
        } else if b == 6 {
            Some(Tag::Double)
        } else if b == 7 {
            Some(Tag::ByteArray)
        } else if b == 8 {
            Some(Tag::String)
        } else if b == 9 {
            Some(Tag::List)
        } else if b == 10 {
            Some(Tag::Compound)
        } else if b == 11 {
            Some(Tag::IntArray)
        } else if b == 12 {
            Some(Tag::LongArray)
        } else {
            None
        }
    }

    /// The byte that stands for the tag.
    pub fn to_byte(self) -> (b: u8)
        ensures
            b == self.byte(),
    {
        match self {
            Tag::End => 0,
            Tag::Byte => 1,
            Tag::Short => 2,
            Tag::Int => 3,
            Tag::Long => 4,
            Tag::Float => 5,
            Tag::Double => 6,
            Tag::ByteArray => 7,
            Tag::String => 8,
            Tag::List => 9,
            Tag::Compound => 10,
            Tag::IntArray => 11,
            Tag::LongArray => 12,
        }
    }

    /// The tag that the byte `b` stands for, if it stands for one.
    pub fn from_byte(b: u8) -> (r: Option<Tag>)
        ensures
            r == Tag::of_byte(b),
    {
        match b {
            0 => Some(Tag::End),
            1 => Some(Tag::Byte),
            2 => Some(Tag::Short),
            3 => Some(Tag::Int),
            4 => Some(Tag::Long),
            5 => Some(Tag::Float),
            6 => Some(Tag::Double),
            7 => Some(Tag::ByteArray),
            8 => Some(Tag::String),
            9 => Some(Tag::List),
            10 => Some(Tag::Compound),
            11 => Some(Tag::IntArray),
            12 => Some(Tag::LongArray),
            _ => None,
        }
    }

    /// Every tag comes back from its byte, and a byte that stands for a tag is
    /// that tag's byte.
    pub proof fn lemma_byte_round_trip(self)
        ensures
            Tag::of_byte(self.byte()) == Some(self),
            forall|b: u8| Tag::of_byte(b) == Some(self) ==> b == self.byte(),
    {
    }
}

} // verus!
