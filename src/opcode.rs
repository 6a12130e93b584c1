//! The operations a frame can ask for.
use vstd::prelude::*;

verus! {

/// The operation selector carried in a frame header.
#[derive(PartialEq, Eq, Structural, Clone, Copy, Debug)]
pub enum OpCode {
    /// Create a file.
    Create,
    /// Open a file.
    Open,
    /// Read from a file at its cursor.
    Read,
    /// Read from a file at a given offset.
    PRead,
    /// Write to a file at its cursor.
    Write,
    /// Write to a file at a given offset.
    PWrite,
    /// Close an open file.
    Close,
    /// Get information about a file.
    GetInfo,
    /// Remove a file.
    Remove,
    /// Write to a file directly.
    WriteDirect,
    /// Rename a file.
    FileRename,
    /// Create a directory.
    MkDir,
    /// Remove a directory.
    RmDir,
    /// Flush a file to stable storage.
    Fsync,
}

impl OpCode {
    /// The byte that stands for this operation on the wire.
    pub open spec fn spec_code(self) -> u8 {
        match self {
            OpCode::Create => 0,
            OpCode::Open => 1,
            OpCode::Read => 2,
            OpCode::PRead => 3,
            OpCode::Write => 4,
            OpCode::PWrite => 5,
            OpCode::Close => 6,
            OpCode::GetInfo => 7,
            OpCode::Remove => 8,
            OpCode::WriteDirect => 9,
            OpCode::FileRename => 10,
            OpCode::MkDir => 11,
            OpCode::RmDir => 12,
            OpCode::Fsync => 13,
        }
    }

    pub fn code(self) -> (r: u8)
        ensures
            r == self.spec_code(),
    {
        match self {
            OpCode::Create => 0,
            OpCode::Open => 1,
            OpCode::Read => 2,
            OpCode::PRead => 3,
            OpCode::Write => 4,
            OpCode::PWrite => 5,
            OpCode::Close => 6,
            OpCode::GetInfo => 7,
            OpCode::Remove => 8,
            OpCode::WriteDirect => 9,
            OpCode::FileRename => 10,
            OpCode::MkDir => 11,
            OpCode::RmDir => 12,
            OpCode::Fsync => 13,
        }
    }

    /// The operation that `c` stands for, if any.
    pub open spec fn spec_from_code(c: u8) -> Option<OpCode> {
        match c {
            0 => Some(OpCode::Create),
            1 => Some(OpCode::Open),
            2 => Some(OpCode::Read),
            3 => Some(OpCode::PRead),
            4 => Some(OpCode::Write),
            5 => Some(OpCode::PWrite),
            6 => Some(OpCode::Close),
            7 => Some(OpCode::GetInfo),
            8 => Some(OpCode::Remove),
            9 => Some(OpCode::WriteDirect),
            10 => Some(OpCode::FileRename),
            11 => Some(OpCode::MkDir),
            12 => Some(OpCode::RmDir),
            13 => Some(OpCode::Fsync),
            _ => None,
        }
    }

    pub fn from_code(c: u8) -> (r: Option<OpCode>)
        ensures
            r == Self::spec_from_code(c),
            match r {
                Some(op) => op.spec_code() == c,
                None => forall|op: OpCode| op.spec_code() != c,
            },
    {
        match c {
            0 => Some(OpCode::Create),
            1 => Some(OpCode::Open),
            2 => Some(OpCode::Read),
            3 => Some(OpCode::PRead),
            4 => Some(OpCode::Write),
            5 => Some(OpCode::PWrite),
            6 => Some(OpCode::Close),
            7 => Some(OpCode::GetInfo),
            8 => Some(OpCode::Remove),
            9 => Some(OpCode::WriteDirect),
            10 => Some(OpCode::FileRename),
            11 => Some(OpCode::MkDir),
            12 => Some(OpCode::RmDir),
            13 => Some(OpCode::Fsync),
            _ => None,
        }
    }
}

/// Two operations never share a code, and each code reads back as its
/// operation.
pub proof fn lemma_code_injective(a: OpCode, b: OpCode)
    ensures
        a.spec_code() == b.spec_code() ==> a == b,
        OpCode::spec_from_code(a.spec_code()) == Some(a),
{
}

} // verus!
