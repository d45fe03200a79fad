//! The tagged union over files and directories that directory iteration
//! and path resolution yield.

use vstd::prelude::*;

use crate::vfat::dir::Dir;
use crate::vfat::file::File;
use crate::vfat::metadata::Metadata;

verus! {

/// One decoded directory entry: a file or a directory.
#[derive(Debug)]
pub enum Entry {
    File(File),
    Dir(Dir),
}

impl Entry {
    /// The entry's displayed name: the long name when one exists, else
    /// the 8.3 name.
    pub open spec fn spec_name(&self) -> Seq<char> {
        match self {
            Entry::File(f) => f.spec_name(),
            Entry::Dir(d) => d.spec_name(),
        }
    }

    /// The entry's effective name.
    pub fn name(&self) -> (r: &String)
        ensures
            r@ == self.spec_name(),
    {
        match self {
            Entry::File(f) => f.name(),
            Entry::Dir(d) => d.name(),
        }
    }

    /// The entry's metadata.
    pub fn metadata(&self) -> (r: &Metadata)
        ensures
            match self {
                Entry::File(f) => r == f.metadata,
                Entry::Dir(d) => r == d.metadata,
            },
    {
        match self {
            Entry::File(f) => &f.metadata,
            Entry::Dir(d) => &d.metadata,
        }
    }

    /// Borrows the file inside, if this entry is a file.
    pub fn as_file(&self) -> (r: Option<&File>)
        ensures
            match self {
                Entry::File(f) => r matches Some(g) && g == f,
                Entry::Dir(d) => r is None,
            },
    {
        match self {
            Entry::File(f) => Some(f),
            Entry::Dir(d) => None,
        }
    }

    /// Borrows the directory inside, if this entry is a directory.
    pub fn as_dir(&self) -> (r: Option<&Dir>)
        ensures
            match self {
                Entry::File(f) => r is None,
                Entry::Dir(d) => r matches Some(g) && g == d,
            },
    {
        match self {
            Entry::File(f) => None,
            Entry::Dir(d) => Some(d),
        }
    }

    /// Takes the file inside, if this entry is a file.
    pub fn into_file(self) -> (r: Option<File>)
        ensures
            match self {
                Entry::File(f) => r == Some(f),
                Entry::Dir(d) => r is None,
            },
    {
        match self {
            Entry::File(f) => Some(f),
            Entry::Dir(d) => None,
        }
    }

    /// Takes the directory inside, if this entry is a directory.
    pub fn into_dir(self) -> (r: Option<Dir>)
        ensures
            match self {
                Entry::File(f) => r is None,
                Entry::Dir(d) => r == Some(d),
            },
    {
        match self {
            Entry::File(f) => None,
            Entry::Dir(d) => Some(d),
        }
    }
}

} // verus!
