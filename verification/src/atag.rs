//! Decoded ARM boot tags: the records a bootloader leaves describing
//! the machine.

use vstd::prelude::*;

verus! {

/// A CORE boot tag: flags, the page size and the root device.
#[derive(Debug, Copy, Clone, PartialEq, Eq, Structural)]
pub struct Core {
    pub flags: u32,
    pub page_size: u32,
    pub root_dev: u32,
}

/// A MEM boot tag: one region of physical memory.
#[derive(Debug, Copy, Clone, PartialEq, Eq, Structural)]
pub struct Mem {
    pub size: u32,
    pub start: u32,
}

/// One decoded boot tag.
#[derive(Debug, Clone)]
pub enum Atag {
    Core(Core),
    Mem(Mem),
    /// The kernel command line.
    Cmd(String),
    /// A tag of a kind this decoder does not know, by its raw id.
    Unknown(u32),
    /// The closing tag that ends the list.
    End,
}

impl Atag {
    /// The CORE payload, if this is a CORE tag.
    pub fn core_tag(self) -> (r: Option<Core>)
        ensures
            match self {
                Atag::Core(c) => r == Some(c),
                _ => r is None,
            },
    {
        match self {
            Atag::Core(core) => Some(core),
            _ => None,
        }
    }

    /// The MEM payload, if this is a MEM tag.
    pub fn mem(self) -> (r: Option<Mem>)
        ensures
            match self {
                Atag::Mem(m) => r == Some(m),
                _ => r is None,
            },
    {
        match self {
            Atag::Mem(mem) => Some(mem),
            _ => None,
        }
    }

    /// The command line, if this is a CMDLINE tag.
    pub fn cmd(self) -> (r: Option<String>)
        ensures
            match self {
                Atag::Cmd(s) => r == Some(s),
                _ => r is None,
            },
    {
        match self {
            Atag::Cmd(cmd) => Some(cmd),
            _ => None,
        }
    }
}

} // verus!
