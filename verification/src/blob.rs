//! Blobs: the pieces of content that a repository stores, and the packer that
//! assembles them into packs.

pub mod packer;
pub mod run;

use vstd::prelude::*;

verus! {

/// What a blob holds: file content or a directory tree.
#[derive(Clone, Copy, Debug, PartialEq, Eq, Structural, Hash)]
pub enum BlobType {
    Data,
    Tree,
}

impl BlobType {
    /// The byte that stands for the type in a pack header: 0 for `Data`, 1 for `Tree`.
    pub open spec fn code(self) -> u8 {
        match self {
            BlobType::Data => 0,
            BlobType::Tree => 1,
        }
    }

    /// The type that the byte `b` stands for, if any.
    pub open spec fn of_code(b: u8) -> Option<BlobType> {
        if b == 0 {
            Some(BlobType::Data)
        } else if b == 1 {
            Some(BlobType::Tree)
        } else {
            None
        }
    }

    /// The byte that stands for the type in a pack header.
    pub fn to_byte(&self) -> (b: u8)
        ensures
            b == self.code(),
            BlobType::of_code(b) == Some(*self),
    {
        match self {
            BlobType::Data => 0,
            BlobType::Tree => 1,
        }
    }

    /// The type that the byte `b` stands for: 0 is `Data`, 1 is `Tree`, any
    /// other byte is none.
    pub fn from_byte(b: u8) -> (r: Option<BlobType>)
        ensures
            r == BlobType::of_code(b),
            r is Some ==> r->0.code() == b,
    {
        if b == 0 {
            Some(BlobType::Data)
        } else if b == 1 {
            Some(BlobType::Tree)
        } else {
            None
        }
    }
}

} // verus!
