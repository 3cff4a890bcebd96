//! A filesystem over the entries of a tar archive.

use vstd::prelude::*;
use crate::filesystem::FileDescriptor;
use crate::filesystem::Filesystem;

verus! {

/// An entry of a tar archive.
pub struct TarEntry {
    /// The name of the entry.
    pub name: Vec<u8>,
    /// The bytes of the entry.
    pub contents: Vec<u8>,
}

/// `name` without the `./` that it may start with.
pub open spec fn normalized_name(name: Seq<u8>) -> Seq<u8> {
    if name.len() >= 2 && name[0] == 0x2e && name[1] == 0x2f {
        name.subrange(2, name.len() as int)
    } else {
        name
    }
}

/// Where in `name` the name of the entry starts once the `./` that it may
/// start with is left out.
pub fn normalized_entry_name(name: &[u8]) -> (start: usize)
    ensures
        start <= name@.len(),
        name@.subrange(start as int, name@.len() as int) == normalized_name(name@),
{
    if name.len() >= 2 && name[0] == 0x2e && name[1] == 0x2f {
        2
    } else {
        assert(name@.subrange(0, name@.len() as int) =~= name@);
        0
    }
}

/// The first of `entries` whose name, without a `./` at its start, is
/// `path`.
pub open spec fn first_named(entries: Seq<TarEntry>, path: Seq<u8>) -> Option<int>
    decreases entries.len(),
{
    if entries.len() == 0 {
        None
    } else if normalized_name(entries[0].name@) == path {
        Some(0)
    } else {
        match first_named(entries.skip(1), path) {
            Some(i) => Some(i + 1),
            None => None,
        }
    }
}

/// The filesystem of a tar archive.
pub struct TarFilesystem {
    entries: Vec<TarEntry>,
}

/// A file of a tar archive.
pub struct TarFileDescriptor {
    contents: Vec<u8>,
}

impl TarFileDescriptor {
    fn new(entry: &TarEntry) -> (file: TarFileDescriptor)
        ensures
            file.contents() == entry.contents@,
    {
        TarFileDescriptor { contents: copy_of(&entry.contents) }
    }
}

fn copy_of(bytes: &Vec<u8>) -> (copy: Vec<u8>)
    ensures
        copy@ == bytes@,
{
    let mut copy: Vec<u8> = Vec::new();
    let mut i: usize = 0;
    while i < bytes.len()
        invariant
            i <= bytes@.len(),
            copy@ == bytes@.take(i as int),
        decreases bytes@.len() - i,
    {
        copy.push(bytes[i]);
        assert(copy@ =~= bytes@.take(i + 1));
        i += 1;
    }
    assert(bytes@.take(i as int) =~= bytes@);
    copy
}

impl FileDescriptor for TarFileDescriptor {
    closed spec fn contents(&self) -> Seq<u8> {
        self.contents@
    }

    fn read(&mut self) -> (bytes: Vec<u8>) {
        copy_of(&self.contents)
    }
}

impl TarFilesystem {
    /// The entries of the archive.
    pub closed spec fn entries(&self) -> Seq<TarEntry> {
        self.entries@
    }

    /// The filesystem of the archive with the entries `entries`.
    pub fn new(entries: Vec<TarEntry>) -> (fs: TarFilesystem)
        ensures
            fs.entries() == entries@,
    {
        TarFilesystem { entries }
    }
}

fn same_bytes(a: &[u8], from: usize, b: &[u8]) -> (same: bool)
    requires
        from <= a@.len(),
    ensures
        same == (a@.subrange(from as int, a@.len() as int) == b@),
{
    let length = a.len();
    if length - from != b.len() {
        return false;
    }
    let mut i: usize = 0;
    while i < b.len()
        invariant
            i <= b@.len(),
            a@.len() == length,
            a@.len() - from == b@.len(),
            forall|k: int| 0 <= k < i ==> a@[from + k] == b@[k],
        decreases b@.len() - i,
    {
        if a[from + i] != b[i] {
            assert(a@.subrange(from as int, a@.len() as int)[i as int] != b@[i as int]);
            return false;
        }
        i += 1;
    }
    assert(a@.subrange(from as int, a@.len() as int) =~= b@);
    true
}

impl Filesystem for TarFilesystem {
    type File = TarFileDescriptor;

    /// The bytes of the first entry whose name, without a `./` at its start,
    /// is `path`.
    open spec fn file(&self, path: Seq<u8>) -> Option<Seq<u8>> {
        match first_named(self.entries(), path) {
            Some(i) => Some(self.entries()[i].contents@),
            None => None,
        }
    }

    fn get_file(&self, path: &[u8]) -> (file: Option<TarFileDescriptor>) {
        assert(self.entries@.skip(0) =~= self.entries@);
        let mut i: usize = 0;
        while i < self.entries.len()
            invariant
                i <= self.entries@.len(),
                first_named(self.entries@, path@) == match first_named(
                    self.entries@.skip(i as int),
                    path@,
                ) {
                    Some(k) => Some(k + i),
                    None => None,
                },
            decreases self.entries@.len() - i,
        {
            let entry = &self.entries[i];
            let start = normalized_entry_name(entry.name.as_slice());
            let ghost rest = self.entries@.skip(i as int);
            assert(rest[0] == self.entries@[i as int]);
            assert(rest.skip(1) =~= self.entries@.skip(i + 1));
            if same_bytes(entry.name.as_slice(), start, path) {
                return Some(TarFileDescriptor::new(entry));
            }
            i += 1;
        }
        assert(self.entries@.skip(i as int).len() == 0);
        None
    }
}

} // verus!
