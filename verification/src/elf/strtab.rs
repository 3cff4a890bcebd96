//! The string table of an ELF executable: names, each ended by a delimiter.

use vstd::prelude::*;
use vstd::slice::slice_subrange;
use vstd::string::StringSliceAdditionalSpecFns;
use vstd::utf8::valid_utf8;

verus! {

/// The place of the first `delim` in `bytes` at or after `from`; the length
/// of `bytes` where there is none.
pub open spec fn name_end(bytes: Seq<u8>, delim: u8, from: int) -> int
    decreases bytes.len() - from,
{
    if from < 0 || from >= bytes.len() {
        bytes.len() as int
    } else if bytes[from] == delim {
        from
    } else {
        name_end(bytes, delim, from + 1)
    }
}

/// The bytes of the name that starts at `idx`: those from `idx` up to the
/// next `delim`, or up to the end of `bytes`; none where `idx` lies beyond
/// `bytes`.
pub open spec fn name_at(bytes: Seq<u8>, delim: u8, idx: int) -> Seq<u8> {
    if 0 <= idx < bytes.len() {
        bytes.subrange(idx, name_end(bytes, delim, idx))
    } else {
        Seq::empty()
    }
}

/// The end of a name lies between its start and the end of the bytes, no
/// byte before it is the delimiter, and the byte at it is, where there is
/// one.
pub proof fn lemma_name_end(bytes: Seq<u8>, delim: u8, from: int)
    requires
        0 <= from <= bytes.len(),
    ensures
        from <= name_end(bytes, delim, from) <= bytes.len(),
        forall|i: int| from <= i < name_end(bytes, delim, from) ==> bytes[i] != delim,
        name_end(bytes, delim, from) < bytes.len() ==> bytes[name_end(bytes, delim, from)]
            == delim,
    decreases bytes.len() - from,
{
    if from < bytes.len() && bytes[from] != delim {
        lemma_name_end(bytes, delim, from + 1);
    }
}

/// `core::str::from_utf8` of the standard library: the bytes as text, where
/// they are valid UTF-8, and `None` where they are not.
#[verifier::external_body]
fn from_utf8(bytes: &[u8]) -> (text: Option<&str>)
    ensures
        text.is_some() <==> valid_utf8(bytes@),
        text matches Some(s) ==> s.spec_bytes() == bytes@,
{
    core::str::from_utf8(bytes).ok()
}

/// A string table.
pub struct Strtab<'a> {
    bytes: &'a [u8],
    delim: u8,
}

impl<'a> Strtab<'a> {
    /// The bytes of the table.
    pub closed spec fn bytes(&self) -> Seq<u8> {
        self.bytes@
    }

    /// The byte that ends a name.
    pub closed spec fn delim(&self) -> u8 {
        self.delim
    }

    /// The table over `bytes` in which `delim` ends a name.
    pub fn from_raw(bytes: &'a [u8], delim: u8) -> (table: Strtab<'a>)
        ensures
            table.bytes() == bytes@,
            table.delim() == delim,
    {
        Strtab { bytes, delim }
    }

    /// The name that starts at `idx`: the bytes from there up to the next
    /// delimiter, or up to the end of the table, as text.  The name is empty
    /// where `idx` lies beyond the table.  `None` where the bytes are not
    /// valid UTF-8.
    pub fn get(&self, idx: usize) -> (name: Option<&'a str>)
        ensures
            name.is_some() <==> valid_utf8(name_at(self.bytes(), self.delim(), idx as int)),
            name matches Some(s) ==> s.spec_bytes() == name_at(
                self.bytes(),
                self.delim(),
                idx as int,
            ),
    {
        let mut i = idx;
        let len = self.bytes.len();
        if i >= len {
            assert(self.bytes@.subrange(0, 0) =~= Seq::<u8>::empty());
            return from_utf8(slice_subrange(self.bytes, 0, 0));
        }
        let mut byte = self.bytes[i];
        if byte == self.delim {
            assert(self.bytes@.subrange(idx as int, idx as int) =~= name_at(
                self.bytes(),
                self.delim(),
                idx as int,
            ));
            return from_utf8(slice_subrange(self.bytes, idx, idx));
        }
        while byte != self.delim && i < len
            invariant
                len == self.bytes@.len(),
                idx <= i <= len,
                idx < len,
                self.bytes@[idx as int] != self.delim,
                i == idx ==> byte == self.bytes@[idx as int],
                i > idx ==> byte == self.bytes@[i - 1],
                forall|k: int| idx <= k < i - 1 ==> self.bytes@[k] != self.delim,
            decreases len - i,
        {
            byte = self.bytes[i];
            i += 1;
        }
        // the delimiter is dropped, unless the table ends without one
        if i < len || self.bytes[i - 1] == self.delim {
            i -= 1;
        }
        proof {
            lemma_name_end(self.bytes@, self.delim, idx as int);
            let end = name_end(self.bytes@, self.delim, idx as int);
            if end < i {
                assert(self.bytes@[end] == self.delim);
            }
            if i < end {
                assert(self.bytes@[i as int] != self.delim);
            }
            assert(i == end);
        }
        from_utf8(slice_subrange(self.bytes, idx, i))
    }
}

impl Strtab<'static> {
    /// The table without bytes, in which the zero byte ends a name.
    pub fn default() -> (table: Strtab<'static>)
        ensures
            table.bytes() == Seq::<u8>::empty(),
            table.delim() == 0,
    {
        let bytes: &'static [u8] = &[];
        assert(bytes@ =~= Seq::<u8>::empty());
        Strtab { bytes, delim: 0x0 }
    }
}

} // verus!
