//! Permission bits carried by a mapping request.
use vstd::prelude::*;

verus! {

/// A request's permission word: bit 0 read, bit 1 write, bit 2 execute.
#[derive(Copy, Clone, Debug, Eq, PartialEq, Structural)]
pub struct Flag(pub usize);

impl Flag {
    /// Bit 2: the mapping may be executed.
    pub fn is_execute(&self) -> (r: bool)
        ensures
            r == (self.0 & 0x4 == 0x4),
    {
        self.0 & 0x4 == 0x4
    }

    /// Bit 1: the mapping may be written.
    pub fn is_write(&self) -> (r: bool)
        ensures
            r == (self.0 & 0x2 == 0x2),
    {
        self.0 & 0x2 == 0x2
    }

    /// Bit 0: the mapping may be read.
    pub fn is_read(&self) -> (r: bool)
        ensures
            r == (self.0 & 0x1 == 0x1),
    {
        self.0 & 0x1 == 0x1
    }
}

} // verus!
