use kernel::elf::read_u16;
use kernel::elf::read_u32;
use kernel::elf::read_u64;
use kernel::elf::section::Section;
use kernel::elf::section::SectionHeader;
use kernel::elf::Elf;
use kernel::elf::Error;
use kernel::elf::ProgramHeader;
use kernel::elf::Reloc;

fn put(image: &mut Vec<u8>, at: usize, bytes: &[u8]) {
    if image.len() < at + bytes.len() {
        image.resize(at + bytes.len(), 0);
    }
    image[at..at + bytes.len()].copy_from_slice(bytes);
}

fn section_header(name: u32, kind: u32, flags: u64, offset: u64, size: u64, link: u32) -> Vec<u8> {
    let mut header = Vec::new();
    header.extend_from_slice(&name.to_le_bytes());
    header.extend_from_slice(&kind.to_le_bytes());
    header.extend_from_slice(&flags.to_le_bytes());
    header.extend_from_slice(&0x40_0000u64.to_le_bytes());
    header.extend_from_slice(&offset.to_le_bytes());
    header.extend_from_slice(&size.to_le_bytes());
    header.extend_from_slice(&link.to_le_bytes());
    header.extend_from_slice(&0u32.to_le_bytes());
    header.extend_from_slice(&8u64.to_le_bytes());
    header.extend_from_slice(&0u64.to_le_bytes());
    header
}

fn symbol(name: u32, info: u8, section: u16, value: u64) -> Vec<u8> {
    let mut symbol = Vec::new();
    symbol.extend_from_slice(&name.to_le_bytes());
    symbol.push(info);
    symbol.push(0);
    symbol.extend_from_slice(&section.to_le_bytes());
    symbol.extend_from_slice(&value.to_le_bytes());
    symbol.extend_from_slice(&0u64.to_le_bytes());
    symbol
}

const NAMES: &[u8] = b"\0.shstrtab\0.symtab\0.rel\0main\0";

/// A file with one segment and five sections: none, the names, four
/// symbols, two relocations, and one that lies beyond the end of the file.
fn image() -> Vec<u8> {
    let mut image = vec![0u8; 64];
    put(&mut image, 0, &[0x7f, b'E', b'L', b'F', 2, 1, 1]);
    put(&mut image, 24, &0x40_1000u64.to_le_bytes());
    put(&mut image, 32, &64u64.to_le_bytes());
    put(&mut image, 40, &120u64.to_le_bytes());
    put(&mut image, 54, &56u16.to_le_bytes());
    put(&mut image, 56, &1u16.to_le_bytes());
    put(&mut image, 58, &64u16.to_le_bytes());
    put(&mut image, 60, &5u16.to_le_bytes());
    put(&mut image, 62, &1u16.to_le_bytes());
    // the segment
    let mut segment = Vec::new();
    segment.extend_from_slice(&1u32.to_le_bytes());
    segment.extend_from_slice(&5u32.to_le_bytes());
    for value in [0u64, 0x40_0000, 0x40_0000, 0x300, 0x400, 0x1000] {
        segment.extend_from_slice(&value.to_le_bytes());
    }
    put(&mut image, 64, &segment);
    // the headers of the sections, from 120 to 440
    put(&mut image, 120, &section_header(0, 0, 0, 0, 0, 0));
    put(&mut image, 184, &section_header(1, 3, 0, 440, NAMES.len() as u64, 0));
    put(&mut image, 248, &section_header(11, 2, 0, 480, 96, 1));
    put(&mut image, 312, &section_header(19, 9, 2, 576, 40, 2));
    put(&mut image, 376, &section_header(0, 1, 0, 600, 100, 0));
    put(&mut image, 440, NAMES);
    // a weak symbol that is defined nowhere, one that is global, one with
    // an address of its own, and a function in section 3
    put(&mut image, 480, &symbol(0, 0x20, 0, 0));
    put(&mut image, 504, &symbol(24, 0x10, 0, 0));
    put(&mut image, 528, &symbol(24, 0x12, 0xfff1, 0xdead));
    put(&mut image, 552, &symbol(24, 0x12, 3, 0x10));
    // two relocations and eight bytes that are none
    let mut relocations = Vec::new();
    relocations.extend_from_slice(&0x1000u64.to_le_bytes());
    relocations.extend_from_slice(&((3u64 << 32) | 7).to_le_bytes());
    relocations.extend_from_slice(&0x2000u64.to_le_bytes());
    relocations.extend_from_slice(&((1u64 << 32) | 2).to_le_bytes());
    relocations.extend_from_slice(&[0xff; 8]);
    put(&mut image, 576, &relocations);
    assert_eq!(image.len(), 616);
    image
}

#[test]
fn numbers_lie_with_their_lowest_byte_first() {
    let bytes = [0x01, 0x02, 0x03, 0x04, 0x05, 0x06, 0x07, 0x08, 0x09];
    assert_eq!(read_u16(&bytes, 0), 0x0201);
    assert_eq!(read_u16(&bytes, 7), 0x0908);
    assert_eq!(read_u32(&bytes, 1), 0x0504_0302);
    assert_eq!(read_u64(&bytes, 1), 0x0908_0706_0504_0302);
}

#[test]
fn file_is_held_against_its_header() {
    assert_eq!(Elf::from(&[0x7f, b'E', b'L', b'F']).err(), Some(Error::NotEnoughData));
    assert_eq!(Elf::from(&[0u8; 63]).err(), Some(Error::NotEnoughData));
    assert_eq!(Elf::from(&[0u8; 64]).err(), Some(Error::InvalidMagic));
    let mut bytes = image();
    bytes[4] = 1;
    assert_eq!(Elf::from(&bytes).err(), Some(Error::InvalidArchitecture));
    bytes[4] = 2;
    bytes[3] = b'G';
    assert_eq!(Elf::from(&bytes).err(), Some(Error::InvalidMagic));
    let bytes = image();
    let elf = Elf::from(&bytes).unwrap();
    assert_eq!(elf.data().len(), 616);
    assert_eq!(elf.entry(), 0x40_1000);
    assert_eq!(elf.segment_count(), 1);
    assert_eq!(elf.section_count(), 5);
}

#[test]
fn segments_are_read_from_their_table() {
    let bytes = image();
    let elf = Elf::from(&bytes).unwrap();
    assert_eq!(
        elf.segment(0),
        Some(ProgramHeader {
            p_type: 1,
            p_flags: 5,
            p_offset: 0,
            p_vaddr: 0x40_0000,
            p_paddr: 0x40_0000,
            p_filesz: 0x300,
            p_memsz: 0x400,
            p_align: 0x1000,
        })
    );
    assert_eq!(elf.segment(1), None);
    // a table that lies beyond the end of the file holds nothing
    let mut bytes = image();
    bytes[32..40].copy_from_slice(&600u64.to_le_bytes());
    assert_eq!(Elf::from(&bytes).unwrap().segment(0), None);
    bytes[32..40].copy_from_slice(&u64::MAX.to_le_bytes());
    assert_eq!(Elf::from(&bytes).unwrap().segment(0), None);
}

#[test]
fn sections_lie_within_the_file() {
    let bytes = image();
    let elf = Elf::from(&bytes).unwrap();
    let names = elf.section(1).unwrap();
    assert_eq!(names.data(), NAMES);
    assert_eq!(names.sh_type(), 3);
    assert_eq!(names.sh_name(), 1);
    assert_eq!(names.sh_offset(), 440);
    assert_eq!(names.sh_size(), NAMES.len() as u64);
    assert_eq!(names.sh_addr(), 0x40_0000);
    assert_eq!(names.sh_link(), 0);
    assert_eq!(names.offset(5), Some(445));
    assert_eq!(names.offset(u64::MAX), None);
    assert_eq!(names.entries_count(8), 3);
    let relocations = elf.section(3).unwrap();
    assert_eq!(relocations.sh_flags(), 2);
    assert_eq!(relocations.sh_link(), 2);
    assert_eq!(relocations.entries_count(16), 2);
    assert_eq!(elf.section(0).map(|none| none.data().len()), Some(0));
    // section 4 ends after the file does, and there is no section 5
    assert!(elf.section(4).is_none());
    assert!(elf.section(5).is_none());
    let header = SectionHeader::read(&bytes, 184);
    assert_eq!(header.sh_offset, 440);
    assert!(Section::new(&bytes[..450], header).is_none());
    assert!(Section::new(&bytes[..470], header).is_some());
}

#[test]
fn string_tables_give_the_names() {
    let bytes = image();
    let elf = Elf::from(&bytes).unwrap();
    let names = elf.shdr_strtab();
    assert_eq!(names.get(1), Some(".shstrtab"));
    assert_eq!(names.get(11), Some(".symtab"));
    assert_eq!(names.get(19), Some(".rel"));
    assert_eq!(names.get(0), Some(""));
    // the first section that holds strings
    assert_eq!(elf.strtab().get(24), Some("main"));
    // where the header names no section, the table is empty
    let mut bytes = image();
    bytes[62..64].copy_from_slice(&9u16.to_le_bytes());
    assert_eq!(Elf::from(&bytes).unwrap().shdr_strtab().get(1), Some(""));
    // without a section of strings, too
    let mut bytes = image();
    bytes[188..192].copy_from_slice(&1u32.to_le_bytes());
    assert_eq!(Elf::from(&bytes).unwrap().strtab().get(1), Some(""));
}

#[test]
fn symbols_have_their_values() {
    let bytes = image();
    let elf = Elf::from(&bytes).unwrap();
    let weak = elf.symbol(2, 0).unwrap();
    assert_eq!(weak.value(&elf), Ok(0));
    assert!(weak.is_import());
    assert!(!weak.is_function());
    let global = elf.symbol(2, 1).unwrap();
    assert_eq!(global.value(&elf), Err(Error::UndefinedSymbol(24)));
    assert!(global.is_import());
    assert_eq!(global.st_name(&elf), Ok(Some("main")));
    let absolute = elf.symbol(2, 2).unwrap();
    assert_eq!(absolute.value(&elf), Ok(0xdead));
    assert!(!absolute.is_import());
    assert!(absolute.is_function());
    // 0x10 bytes into section 3, which lies at 576
    let function = elf.symbol(2, 3).unwrap();
    assert_eq!(function.value(&elf), Ok(592));
    assert!(function.is_function());
    // the table holds four symbols
    assert!(elf.symbol(2, 4).is_none());
    assert!(elf.symbol(4, 0).is_none());
    assert!(elf.symbol(7, 0).is_none());
}

#[test]
fn symbol_in_a_section_that_is_not_there() {
    let mut bytes = image();
    // the function lies in section 4, which ends beyond the file
    bytes[558..560].copy_from_slice(&4u16.to_le_bytes());
    let elf = Elf::from(&bytes).unwrap();
    assert_eq!(elf.symbol(2, 3).unwrap().value(&elf), Err(Error::Malformed));
    // the symbol table goes with a string table that is not there
    let mut bytes = image();
    bytes[288..292].copy_from_slice(&4u32.to_le_bytes());
    let elf = Elf::from(&bytes).unwrap();
    assert_eq!(elf.symbol(2, 1).unwrap().st_name(&elf), Err(Error::Malformed));
}

#[test]
fn relocations_of_the_file() {
    let bytes = image();
    let elf = Elf::from(&bytes).unwrap();
    assert_eq!(
        elf.shdr_relocs(),
        vec![
            Reloc { r_offset: 0x1000, r_sym: 3, r_type: 7 },
            Reloc { r_offset: 0x2000, r_sym: 1, r_type: 2 },
        ]
    );
    // a section with addends is read in pieces of 16 bytes as well
    let mut bytes = image();
    bytes[252..256].copy_from_slice(&4u32.to_le_bytes());
    bytes[264..272].copy_from_slice(&0u64.to_le_bytes());
    let relocs = Elf::from(&bytes).unwrap().shdr_relocs();
    assert_eq!(relocs.len(), 6 + 2);
    assert_eq!(relocs[0], Reloc { r_offset: 0x20_0000_0000, r_sym: 0, r_type: 0 });
    assert_eq!(relocs[6], Reloc { r_offset: 0x1000, r_sym: 3, r_type: 7 });
}

#[test]
fn entries_of_a_section_follow_each_other() {
    let bytes = image();
    let elf = Elf::from(&bytes).unwrap();
    let names = elf.section(1).unwrap();
    assert_eq!(names.entry(0, 8), Some(&NAMES[0..8]));
    assert_eq!(names.entry(2, 8), Some(&NAMES[16..24]));
    assert_eq!(names.entry(3, 8), None);
    assert_eq!(names.entry(0, NAMES.len() + 1), None);
    let relocations = elf.section(3).unwrap();
    assert_eq!(relocations.entry(1, 16).map(|entry| entry.len()), Some(16));
    assert_eq!(relocations.entry(2, 16), None);
}
