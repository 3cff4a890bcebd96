//! The initial ramdisk: a tar archive that the boot loader puts into memory
//! beside the kernel.  Its files are mounted at `/initrd`; those whose names
//! end in `.ko` are kernel objects.

use vstd::prelude::*;
use vstd::string::StringSliceAdditionalSpecFns;
use vstd::utf8::valid_utf8;
use crate::elf::Elf;
use crate::elf::Error;
use crate::elf::section_bytes;
use crate::elf::section_header_in;
use crate::elf::strtab::name_at;
use crate::elf::u16_at;
use crate::filesystem::VirtualFilesystem;
use crate::filesystem::normalized;
use crate::filesystem::tarfs::TarEntry;
use crate::filesystem::tarfs::TarFilesystem;

verus! {

/// The entries that the bytes `bytes` hold as a tar archive, each with its
/// name and its bytes; `None` where the bytes are no tar archive.
pub uninterp spec fn tar_entries(bytes: Seq<u8>) -> Option<Seq<(Seq<u8>, Seq<u8>)>>;

/// The names and the bytes of `entries`.
pub open spec fn entry_views(entries: Seq<TarEntry>) -> Seq<(Seq<u8>, Seq<u8>)> {
    Seq::new(entries.len(), |i: int| (entries[i].name@, entries[i].contents@))
}

/// `parse_tar` of the crate `tar-parser2`: the entries of a tar archive,
/// or an error where the bytes are none.  What it gives is a function of the
/// bytes alone, and `tar_entries` is the name of it; of each entry the name
/// in its header and its contents are kept.
#[verifier::external_body]
fn parse_tar(bytes: &[u8]) -> (entries: Option<Vec<TarEntry>>)
    ensures
        entries.is_some() <==> tar_entries(bytes@).is_some(),
        entries matches Some(e) ==> Some(entry_views(e@)) == tar_entries(bytes@),
{
    match tar_parser2::parse_tar(bytes) {
        Ok((_, entries)) => Some(
            entries.into_iter().map(
                |entry|
                    TarEntry {
                        name: entry.header.name.as_bytes().to_vec(),
                        contents: entry.contents.to_vec(),
                    },
            ).collect(),
        ),
        Err(_) => None,
    }
}

/// Whether `name` ends in `.ko`.
pub open spec fn is_kernel_object(name: Seq<u8>) -> bool {
    name.len() >= 3 && name[name.len() - 3] == 0x2e && name[name.len() - 2] == 0x6b && name[name.len()
        - 1] == 0x6f
}

/// The places in `entries` of the entries that are kernel objects, in
/// ascending order.
pub open spec fn kernel_objects(entries: Seq<TarEntry>) -> Seq<usize>
    decreases entries.len(),
{
    if entries.len() == 0 {
        Seq::empty()
    } else if is_kernel_object(entries.last().name@) {
        kernel_objects(entries.drop_last()).push((entries.len() - 1) as usize)
    } else {
        kernel_objects(entries.drop_last())
    }
}

/// Why the initial ramdisk cannot be used.
#[derive(Debug, Clone, Copy, PartialEq, Eq, Structural)]
pub enum InitrdError {
    /// The bytes of the ramdisk are no tar archive.
    CannotParse,
}

/// The places in `entries` of the entries that are kernel objects.
pub fn find_kernel_objects(entries: &Vec<TarEntry>) -> (objects: Vec<usize>)
    ensures
        objects@ == kernel_objects(entries@),
{
    let mut objects: Vec<usize> = Vec::new();
    let mut i: usize = 0;
    while i < entries.len()
        invariant
            i <= entries@.len(),
            objects@ == kernel_objects(entries@.take(i as int)),
        decreases entries@.len() - i,
    {
        let name = &entries[i].name;
        let length = name.len();
        assert(entries@.take(i + 1).drop_last() =~= entries@.take(i as int));
        if length >= 3 && name[length - 3] == 0x2e && name[length - 2] == 0x6b && name[length - 1]
            == 0x6f {
            objects.push(i);
        }
        i += 1;
    }
    assert(entries@.take(i as int) =~= entries@);
    objects
}

/// Every place that `kernel_objects` gives is the place of a kernel object
/// in `entries`.
pub proof fn lemma_objects_are_entries(entries: Seq<TarEntry>)
    requires
        entries.len() <= usize::MAX,
    ensures
        forall|i: int|
            0 <= i < kernel_objects(entries).len() ==> (#[trigger] kernel_objects(entries)[i])
                < entries.len() && is_kernel_object(
                entries[kernel_objects(entries)[i] as int].name@,
            ),
    decreases entries.len(),
{
    if entries.len() > 0 {
        lemma_objects_are_entries(entries.drop_last());
        assert forall|i: int| 0 <= i < kernel_objects(entries).len() implies (
        #[trigger] kernel_objects(entries)[i]) < entries.len() && is_kernel_object(
            entries[kernel_objects(entries)[i] as int].name@,
        ) by {
            let rest = kernel_objects(entries.drop_last());
            if i < rest.len() {
                let place = rest[i];
                assert(place < entries.drop_last().len());
                assert(kernel_objects(entries)[i] == place);
                assert(entries.drop_last()[place as int] == entries[place as int]);
            } else {
                assert(is_kernel_object(entries.last().name@));
                assert(kernel_objects(entries)[i] == (entries.len() - 1) as usize);
            }
        }
    }
}

/// The contents of the entries of the tar archive in `bytes` that are
/// kernel objects, in the order of the archive; `None` where the bytes are
/// no tar archive.
pub fn kernel_object_files(bytes: &[u8]) -> (result: Option<Vec<Vec<u8>>>)
    ensures
        result.is_some() <==> tar_entries(bytes@).is_some(),
        result matches Some(files) ==> exists|entries: Seq<TarEntry>|
            #![trigger entry_views(entries)]
            Some(entry_views(entries)) == tar_entries(bytes@) && files@.len() == kernel_objects(
                entries,
            ).len() && forall|i: int|
                0 <= i < files@.len() ==> (#[trigger] files@[i])@
                    == entries[kernel_objects(entries)[i] as int].contents@,
{
    let entries = match parse_tar(bytes) {
        Some(entries) => entries,
        None => {
            return None;
        },
    };
    let objects = find_kernel_objects(&entries);
    let _count: usize = entries.len();
    proof {
        lemma_objects_are_entries(entries@);
    }
    let mut files: Vec<Vec<u8>> = Vec::new();
    let mut i: usize = 0;
    while i < objects.len()
        invariant
            i <= objects@.len(),
            objects@ == kernel_objects(entries@),
            forall|k: int| 0 <= k < objects@.len() ==> (#[trigger] objects@[k]) < entries@.len(),
            files@.len() == i,
            forall|k: int|
                0 <= k < i ==> (#[trigger] files@[k])@ == entries@[objects@[k] as int].contents@,
        decreases objects@.len() - i,
    {
        let contents = &entries[objects[i]].contents;
        let mut file: Vec<u8> = Vec::new();
        let mut j: usize = 0;
        while j < contents.len()
            invariant
                j <= contents@.len(),
                file@ == contents@.take(j as int),
            decreases contents@.len() - j,
        {
            file.push(contents[j]);
            assert(file@ =~= contents@.take(j + 1));
            j += 1;
        }
        assert(contents@.take(j as int) =~= contents@);
        files.push(file);
        i += 1;
    }
    Some(files)
}

/// Mounts the archive with the entries `entries` at `/initrd`, and gives
/// the places of the entries that are kernel objects.
pub fn mount_entries(vfs: &mut VirtualFilesystem<TarFilesystem>, entries: Vec<TarEntry>) -> (objects:
    Vec<usize>)
    ensures
        objects@ == kernel_objects(entries@),
        exists|i: int|
            0 <= i < final(vfs).paths().len() && #[trigger] final(vfs).paths()[i] == normalized(
                initrd_path(),
            ) && final(vfs).fs_at(i).entries() == entries@,
        forall|other: Seq<u8>|
            final(vfs).paths().contains(other) <==> old(vfs).paths().contains(other) || other
                == normalized(initrd_path()),
{
    let objects = find_kernel_objects(&entries);
    let path: [u8; 7] = [0x2f, 0x69, 0x6e, 0x69, 0x74, 0x72, 0x64];
    assert(path@ =~= initrd_path());
    vfs.mount(path.as_slice(), TarFilesystem::new(entries));
    objects
}

/// The path `/initrd`.
pub open spec fn initrd_path() -> Seq<u8> {
    seq![0x2fu8, 0x69u8, 0x6eu8, 0x69u8, 0x74u8, 0x72u8, 0x64u8]
}

/// Mounts the tar archive in `bytes` at `/initrd`, and gives the places of
/// its entries that are kernel objects.  Refused, and nothing is mounted,
/// where the bytes are no tar archive.
pub fn init(vfs: &mut VirtualFilesystem<TarFilesystem>, bytes: &[u8]) -> (result: Result<
    Vec<usize>,
    InitrdError,
>)
    ensures
        result.is_ok() <==> tar_entries(bytes@).is_some(),
        result.is_err() ==> final(vfs).paths() == old(vfs).paths(),
        result matches Ok(objects) ==> {
            &&& exists|i: int|
                0 <= i < final(vfs).paths().len() && #[trigger] final(vfs).paths()[i]
                    == normalized(initrd_path()) && Some(
                    entry_views(final(vfs).fs_at(i).entries()),
                ) == tar_entries(bytes@) && objects@ == kernel_objects(
                    final(vfs).fs_at(i).entries(),
                )
            &&& forall|other: Seq<u8>|
                final(vfs).paths().contains(other) <==> old(vfs).paths().contains(other) || other
                    == normalized(initrd_path())
        },
{
    match parse_tar(bytes) {
        Some(entries) => Ok(mount_entries(vfs, entries)),
        None => Err(InitrdError::CannotParse),
    }
}

/// The bytes of the string table with the names of the sections of the file
/// with the bytes `bytes`; none where the section that the header of the
/// file names for them is not there.
pub open spec fn names_of_sections(bytes: Seq<u8>) -> Seq<u8> {
    match section_header_in(bytes, u16_at(bytes, 62) as int) {
        Some(header) => section_bytes(bytes, header),
        None => Seq::<u8>::empty(),
    }
}

/// Whether `name` is the name of the section with the index `index` of the
/// file with the bytes `bytes`: the text at the place that the header of
/// the section names, in the string table with the names of the sections;
/// and no name where the section does not lie within the file, or where the
/// bytes at that place are no text.
pub open spec fn section_name(bytes: Seq<u8>, index: int, name: Option<&str>) -> bool {
    match section_header_in(bytes, index) {
        Some(header) => {
            &&& name.is_some() <==> valid_utf8(
                name_at(names_of_sections(bytes), 0, header.sh_name as int),
            )
            &&& name matches Some(text) ==> text.spec_bytes() == name_at(
                names_of_sections(bytes),
                0,
                header.sh_name as int,
            )
        },
        None => name.is_none(),
    }
}

/// The names of the sections of the kernel object in `bytes`, one for each
/// section that the header of the file counts: `None` for a section that
/// does not lie within the file, and for a name that is no text.
pub fn read<'a>(bytes: &'a [u8]) -> (result: Result<Vec<Option<&'a str>>, Error>)
    ensures
        bytes@.len() < 64 ==> result matches Err(Error::NotEnoughData),
        result.is_ok() <==> Elf::from_spec(bytes@).is_ok(),
        result matches Err(e) ==> Elf::from_spec(bytes@) == Err::<(), Error>(e),
        result matches Ok(names) ==> names@.len() == u16_at(bytes@, 60) && forall|i: int|
            0 <= i < names@.len() ==> section_name(bytes@, i, #[trigger] names@[i]),
{
    let elf = match Elf::from(bytes) {
        Ok(elf) => elf,
        Err(e) => {
            return Err(e);
        },
    };
    let shdr_strtab = elf.shdr_strtab();
    let count = elf.section_count();
    let mut names: Vec<Option<&'a str>> = Vec::new();
    let mut index: usize = 0;
    while index < count
        invariant
            index <= count,
            names@.len() == index,
            elf.bytes() == bytes@,
            shdr_strtab.delim() == 0,
            shdr_strtab.bytes() == names_of_sections(bytes@),
            forall|i: int| 0 <= i < names@.len() ==> section_name(bytes@, i, #[trigger] names@[i]),
        decreases count - index,
    {
        let name = match elf.section(index) {
            Some(section) => shdr_strtab.get(section.sh_name()),
            None => None,
        };
        names.push(name);
        index += 1;
    }
    Ok(names)
}

} // verus!
