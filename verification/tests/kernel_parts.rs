use kernel::filesystem::path_starts_with;
use kernel::filesystem::place_of;
use kernel::filesystem::tarfs::normalized_entry_name;
use kernel::filesystem::tarfs::TarEntry;
use kernel::filesystem::tarfs::TarFilesystem;
use kernel::filesystem::FileDescriptor;
use kernel::filesystem::Filesystem;
use kernel::filesystem::Place;
use kernel::filesystem::VirtualFilesystem;
use kernel::tasking::Task;
use kernel::tasking::TaskError;
use kernel::tasking::TaskId;
use kernel::tasking::TaskList;
use kernel::vga;
use kernel::vga::Color;
use kernel::vga::ColorCode;
use kernel::vga::ScreenChar;
use kernel::vga::Writer;

fn code() -> ColorCode {
    ColorCode::new(Color::LightGray, Color::Black)
}

fn row_text(writer: &Writer, row: usize, length: usize) -> String {
    (0..length).map(|column| writer.char_at(row, column).ascii_character as char).collect()
}

#[test]
fn colors_pack_into_a_byte() {
    assert_eq!(ColorCode::new(Color::LightGray, Color::Black), ColorCode(0x07));
    assert_eq!(ColorCode::new(Color::White, Color::Blue), ColorCode(0x1f));
    assert_eq!(ColorCode::new(Color::Black, Color::White), ColorCode(0xf0));
    assert_eq!(ColorCode::new(Color::Yellow, Color::Pink), ColorCode(0xde));
    assert_eq!(Color::Green.value(), 2);
    assert_eq!(Color::LightRed.value(), 12);
}

#[test]
fn cursor_commands_carry_the_index_of_the_place() {
    assert_eq!(vga::move_cursor(0, 0), [(14, 0), (15, 0)]);
    // row 3, column 5: place 245
    assert_eq!(vga::move_cursor(3, 5), [(14, 0), (15, 245)]);
    // row 24, column 79: place 1999 = 7 * 256 + 207
    assert_eq!(vga::move_cursor(24, 79), [(14, 7), (15, 207)]);
    assert_eq!(vga::move_cursor(24, 80), [(14, 7), (15, 208)]);
}

#[test]
fn writer_puts_bytes_side_by_side() {
    let mut writer = Writer::new(code());
    assert_eq!(writer.position(), (0, 0));
    assert_eq!(writer.char_at(0, 0), ScreenChar { ascii_character: b' ', color_code: code() });
    assert_eq!(writer.write_byte(b'H'), [(14, 0), (15, 1)]);
    writer.write_byte(b'i');
    assert_eq!(writer.position(), (0, 2));
    assert_eq!(writer.char_at(0, 0), ScreenChar { ascii_character: b'H', color_code: code() });
    assert_eq!(row_text(&writer, 0, 3), "Hi ");
}

#[test]
fn writer_breaks_the_line() {
    let mut writer = Writer::new(code());
    assert_eq!(writer.write_str(b"ab\ncd"), Some([(14, 0), (15, 82)]));
    assert_eq!(writer.write_str(b""), None);
    assert_eq!(writer.position(), (1, 2));
    assert_eq!(row_text(&writer, 0, 3), "ab ");
    assert_eq!(row_text(&writer, 1, 3), "cd ");
    // a full row: the place stays at its end until the next byte comes
    let mut writer = Writer::new(code());
    writer.write_str(&[b'x'; 80]);
    assert_eq!(writer.position(), (0, 80));
    writer.write_byte(b'y');
    assert_eq!(writer.position(), (1, 1));
    assert_eq!(writer.char_at(0, 79).ascii_character, b'x');
    assert_eq!(writer.char_at(1, 0).ascii_character, b'y');
}

#[test]
fn writer_scrolls_on_the_last_row() {
    let mut writer = Writer::new(code());
    for row in 0..25u8 {
        writer.write_byte(b'a' + row);
        if row < 24 {
            writer.write_byte(b'\n');
        }
    }
    assert_eq!(writer.position(), (24, 1));
    assert_eq!(writer.char_at(0, 0).ascii_character, b'a');
    assert_eq!(writer.char_at(24, 0).ascii_character, b'y');
    assert_eq!(writer.write_byte(b'\n'), [(14, 7), (15, 128)]);
    // every row moved up by one, the last row is blank
    assert_eq!(writer.position(), (24, 0));
    assert_eq!(writer.char_at(0, 0).ascii_character, b'b');
    assert_eq!(writer.char_at(23, 0).ascii_character, b'y');
    assert_eq!(writer.char_at(24, 0).ascii_character, b' ');
    assert_eq!(writer.clear(), [(14, 0), (15, 0)]);
    assert_eq!(writer.position(), (0, 0));
    assert_eq!(writer.char_at(23, 0).ascii_character, b' ');
}

#[test]
fn tasks_get_the_lowest_free_identifier() {
    let mut tasks = TaskList::new();
    assert_eq!(tasks.new_task(), Ok(TaskId(0)));
    assert_eq!(tasks.new_task(), Ok(TaskId(1)));
    assert_eq!(tasks.new_task(), Ok(TaskId(2)));
    assert_eq!(tasks.get(TaskId(1)), Some(Task { id: TaskId(1), finished: false }));
    assert_eq!(tasks.get(TaskId(3)), None);
    assert_eq!(tasks.current(TaskId(2)), Some(Task::new(TaskId(2))));
}

#[test]
fn tasks_run_in_turn() {
    let mut tasks = TaskList::new();
    for _ in 0..4 {
        tasks.new_task().unwrap();
    }
    assert_eq!(tasks.next(TaskId(0)), Some(TaskId(1)));
    assert_eq!(tasks.next(TaskId(1)), Some(TaskId(2)));
    // after the last task the first runs again
    assert_eq!(tasks.next(TaskId(3)), Some(TaskId(0)));
    assert!(tasks.exit(TaskId(2)));
    assert!(!tasks.exit(TaskId(9)));
    assert_eq!(tasks.get(TaskId(2)), Some(Task { id: TaskId(2), finished: true }));
    assert_eq!(tasks.next(TaskId(1)), Some(TaskId(3)));
    tasks.exit(TaskId(0));
    tasks.exit(TaskId(3));
    assert_eq!(tasks.next(TaskId(3)), Some(TaskId(1)));
    // the running task itself is never the next one
    assert_eq!(tasks.next(TaskId(1)), None);
    tasks.exit(TaskId(1));
    assert_eq!(tasks.next(TaskId(0)), None);
    assert_eq!(TaskList::new().next(TaskId(0)), None);
    assert_eq!(TaskError::TooManyTasks, TaskError::TooManyTasks);
}

#[test]
fn paths_in_the_order_of_a_dictionary() {
    assert_eq!(place_of(b"/a/", b"/b/"), Place::Before);
    assert_eq!(place_of(b"/b/", b"/a/"), Place::After);
    assert_eq!(place_of(b"/a/", b"/a/"), Place::Same);
    assert_eq!(place_of(b"/a/", b"/a/b/"), Place::Before);
    assert_eq!(place_of(b"/a/b/", b"/a/"), Place::After);
    assert_eq!(place_of(b"", b""), Place::Same);
    assert_eq!(place_of(b"", b"/"), Place::Before);
    assert_eq!(place_of(b"/a0", b"/a/"), Place::After);
    assert!(path_starts_with(b"/initrd/hello.txt", b"/initrd/"));
    assert!(path_starts_with(b"/initrd/", b"/initrd/"));
    assert!(path_starts_with(b"/initrd/", b""));
    assert!(!path_starts_with(b"/initrd", b"/initrd/"));
    assert!(!path_starts_with(b"/initre/x", b"/initrd/"));
}

fn archive(files: &[(&str, &str)]) -> TarFilesystem {
    TarFilesystem::new(
        files
            .iter()
            .map(|(name, contents)| TarEntry {
                name: name.as_bytes().to_vec(),
                contents: contents.as_bytes().to_vec(),
            })
            .collect(),
    )
}

#[test]
fn tar_names_lose_their_leading_dot() {
    assert_eq!(normalized_entry_name(b"./hello.txt"), 2);
    assert_eq!(normalized_entry_name(b"hello.txt"), 0);
    assert_eq!(normalized_entry_name(b"."), 0);
    assert_eq!(normalized_entry_name(b"./"), 2);
    assert_eq!(normalized_entry_name(b".hidden"), 0);
    let fs = archive(&[("./hello.txt", "Hello"), ("dir/file", "one"), ("./dir/file", "two")]);
    assert_eq!(fs.get_file(b"hello.txt").map(|mut file| file.read()), Some(b"Hello".to_vec()));
    // the first entry of a name counts
    assert_eq!(fs.get_file(b"dir/file").map(|mut file| file.read()), Some(b"one".to_vec()));
    assert!(fs.get_file(b"./hello.txt").is_none());
    assert!(fs.get_file(b"hello").is_none());
    assert!(fs.get_file(b"").is_none());
}

#[test]
fn file_is_looked_up_under_the_longest_mount_point() {
    let mut vfs = VirtualFilesystem::new();
    assert_eq!(vfs.find_mount(b"/initrd/hello.txt"), None);
    vfs.mount(b"/initrd", archive(&[("hello.txt", "outer"), ("sub/hello.txt", "shadowed")]));
    vfs.mount(b"/initrd/sub/", archive(&[("hello.txt", "inner")]));
    vfs.mount(b"/a", archive(&[("x", "a")]));
    // the mount points ascend: /a/, /initrd/, /initrd/sub/
    assert_eq!(vfs.find_mount(b"/initrd/hello.txt"), Some((1, 8)));
    assert_eq!(vfs.find_mount(b"/initrd/sub/hello.txt"), Some((2, 12)));
    assert_eq!(vfs.find_mount(b"/a/x"), Some((0, 3)));
    assert_eq!(vfs.find_mount(b"/initrd"), None);
    assert_eq!(vfs.find_mount(b"/b/x"), None);
    assert_eq!(vfs.get_file(b"/initrd/hello.txt").map(|mut f| f.read()), Some(b"outer".to_vec()));
    assert_eq!(
        vfs.get_file(b"/initrd/sub/hello.txt").map(|mut f| f.read()),
        Some(b"inner".to_vec())
    );
    assert!(vfs.get_file(b"/initrd/none").is_none());
    assert!(vfs.get_file(b"/elsewhere/hello.txt").is_none());
    // mounting at a mount point again replaces the filesystem
    vfs.mount(b"/a/", archive(&[("x", "b")]));
    assert_eq!(vfs.find_mount(b"/a/x"), Some((0, 3)));
    assert_eq!(vfs.get_file(b"/a/x").map(|mut f| f.read()), Some(b"b".to_vec()));
}

#[test]
fn mount_leaves_the_other_filesystems_as_they_are() {
    let mut vfs = VirtualFilesystem::new();
    vfs.mount(b"/b", archive(&[("x", "b")]));
    vfs.mount(b"/a/", archive(&[("x", "a")]));
    vfs.mount(b"/c", archive(&[("x", "c")]));
    assert_eq!(vfs.get_file(b"/a/x").unwrap().read(), b"a");
    assert_eq!(vfs.get_file(b"/b/x").unwrap().read(), b"b");
    assert_eq!(vfs.get_file(b"/c/x").unwrap().read(), b"c");
    // a filesystem that is mounted where another is takes its place
    vfs.mount(b"/b/", archive(&[("y", "new")]));
    assert!(vfs.get_file(b"/b/x").is_none());
    assert_eq!(vfs.get_file(b"/b/y").unwrap().read(), b"new");
    assert_eq!(vfs.get_file(b"/a/x").unwrap().read(), b"a");
    assert_eq!(vfs.get_file(b"/c/x").unwrap().read(), b"c");
    assert_eq!(vfs.find_mount(b"/c/x"), Some((2, 3)));
}
