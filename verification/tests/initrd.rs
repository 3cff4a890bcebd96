use kernel::filesystem::tarfs::TarEntry;
use kernel::filesystem::tarfs::TarFilesystem;
use kernel::filesystem::FileDescriptor;
use kernel::filesystem::VirtualFilesystem;
use kernel::initrd;
use kernel::initrd::InitrdError;

/// A file of a tar archive: its header and its bytes, in blocks of 512
/// bytes.
fn tar_file(name: &str, contents: &[u8]) -> Vec<u8> {
    let mut header = vec![0u8; 512];
    header[..name.len()].copy_from_slice(name.as_bytes());
    header[100..108].copy_from_slice(b"0000644\0");
    header[108..116].copy_from_slice(b"0000000\0");
    header[116..124].copy_from_slice(b"0000000\0");
    header[124..136].copy_from_slice(format!("{:011o}\0", contents.len()).as_bytes());
    header[136..148].copy_from_slice(b"00000000000\0");
    header[148..156].copy_from_slice(b"        ");
    header[156] = b'0';
    header[257..263].copy_from_slice(b"ustar\0");
    header[263..265].copy_from_slice(b"00");
    let sum: u32 = header.iter().map(|byte| *byte as u32).sum();
    header[148..156].copy_from_slice(format!("{:06o}\0 ", sum).as_bytes());
    let mut file = header;
    file.extend_from_slice(contents);
    while file.len() % 512 != 0 {
        file.push(0);
    }
    file
}

fn archive(files: &[(&str, &[u8])]) -> Vec<u8> {
    let mut archive = Vec::new();
    for (name, contents) in files {
        archive.extend(tar_file(name, contents));
    }
    archive.extend(vec![0u8; 1024]);
    archive
}

#[test]
fn ramdisk_is_mounted_at_its_path() {
    let bytes = archive(&[
        ("./hello.txt", b"Hello World!"),
        ("harddisk.ko", b"\x7fELF"),
        ("notes.kobold", b""),
        ("./drivers/net.ko", b"driver"),
    ]);
    let mut vfs = VirtualFilesystem::new();
    assert_eq!(initrd::init(&mut vfs, &bytes), Ok(vec![1, 3]));
    assert_eq!(
        vfs.get_file(b"/initrd/hello.txt").map(|mut file| file.read()),
        Some(b"Hello World!".to_vec())
    );
    assert_eq!(
        vfs.get_file(b"/initrd/drivers/net.ko").map(|mut file| file.read()),
        Some(b"driver".to_vec())
    );
    assert_eq!(vfs.get_file(b"/initrd/notes.kobold").map(|mut file| file.read()), Some(Vec::new()));
    assert!(vfs.get_file(b"/initrd/none").is_none());
}

#[test]
fn ramdisk_ends_at_a_header_that_is_damaged() {
    let mut bytes = archive(&[("first.ko", b"one"), ("hello.txt", b"Hello"), ("last.ko", b"two")]);
    // the sum over the second header no longer fits: the parser takes the
    // archive to end there
    bytes[1024] = b'j';
    let mut vfs = VirtualFilesystem::new();
    vfs.mount(b"/other", TarFilesystem::new(Vec::new()));
    assert_eq!(initrd::init(&mut vfs, &bytes), Ok(vec![0]));
    assert!(vfs.get_file(b"/initrd/first.ko").is_some());
    assert!(vfs.get_file(b"/initrd/jello.txt").is_none());
    assert!(vfs.get_file(b"/initrd/last.ko").is_none());
    assert_eq!(vfs.find_mount(b"/other/x"), Some((1, 7)));
    assert_eq!(InitrdError::CannotParse, InitrdError::CannotParse);
}

#[test]
fn empty_archive_has_no_files() {
    let mut vfs = VirtualFilesystem::new();
    assert_eq!(initrd::init(&mut vfs, &archive(&[])), Ok(Vec::new()));
    assert_eq!(vfs.find_mount(b"/initrd/hello.txt"), Some((0, 8)));
    assert!(vfs.get_file(b"/initrd/hello.txt").is_none());
}

#[test]
fn kernel_objects_end_in_ko() {
    let entry = |name: &str| TarEntry { name: name.as_bytes().to_vec(), contents: Vec::new() };
    let entries = vec![entry("a.ko"), entry(".ko"), entry("ko"), entry("a.kO"), entry(""), entry("x.ko.ko")];
    assert_eq!(initrd::find_kernel_objects(&entries), vec![0, 1, 5]);
    let mut vfs = VirtualFilesystem::new();
    assert_eq!(initrd::mount_entries(&mut vfs, entries), vec![0, 1, 5]);
    assert!(vfs.get_file(b"/initrd/a.ko").is_some());
}

#[test]
fn section_names_of_a_kernel_object() {
    assert_eq!(initrd::read(b"short").err(), Some(kernel::elf::Error::NotEnoughData));
    // a file with three sections: none, the names, and one beyond the file
    let mut image = vec![0u8; 64 + 3 * 64];
    image[..5].copy_from_slice(&[0x7f, b'E', b'L', b'F', 2]);
    image[40..48].copy_from_slice(&64u64.to_le_bytes());
    image[58..60].copy_from_slice(&64u16.to_le_bytes());
    image[60..62].copy_from_slice(&3u16.to_le_bytes());
    image[62..64].copy_from_slice(&1u16.to_le_bytes());
    // section 1: name at 1, type 3, the bytes from 256 on
    image[128..132].copy_from_slice(&1u32.to_le_bytes());
    image[132..136].copy_from_slice(&3u32.to_le_bytes());
    image[128 + 24..128 + 32].copy_from_slice(&256u64.to_le_bytes());
    image[128 + 32..128 + 40].copy_from_slice(&11u64.to_le_bytes());
    // section 2 lies beyond the end of the file
    image[192 + 24..192 + 32].copy_from_slice(&9999u64.to_le_bytes());
    image[192 + 32..192 + 40].copy_from_slice(&1u64.to_le_bytes());
    image.extend_from_slice(b"\0.shstrtab\0");
    assert_eq!(initrd::read(&image), Ok(vec![Some(""), Some(".shstrtab"), None]));
}

#[test]
fn kernel_objects_are_handed_out_with_their_contents() {
    let bytes = archive(&[("a.txt", b"text"), ("one.ko", b"first"), ("two.ko", b""), ("b", b"x")]);
    assert_eq!(
        initrd::kernel_object_files(&bytes),
        Some(vec![b"first".to_vec(), Vec::new()])
    );
    assert_eq!(initrd::kernel_object_files(&archive(&[])), Some(Vec::new()));
}
