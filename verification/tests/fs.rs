use magicalos::fs::data_handle::{dynamic_handle_state, read_at, seek_to, write_at};
use magicalos::fs::tar::{check_archive, parse_octal, trim_nul, TarEntiresIterator, TarEntry};
use magicalos::fs::vfs::{bytes_eq, bytes_lt, copy_bytes, trim_end_slashes, Vfs, VfsDirectory, VfsNode, VfsNodeId};
use magicalos::fs::{init_ramfs, OpenOptions, SeekFrom};
use magicalos::io::Error;

type TestVfs = Vfs<Vec<u8>, u32>;

fn header(name: &str, size: usize, typeflag: u8) -> Vec<u8> {
    let mut h = vec![0u8; 512];
    h[..name.len()].copy_from_slice(name.as_bytes());
    let size_field = format!("{:011o}", size);
    h[124..135].copy_from_slice(size_field.as_bytes());
    h[156] = typeflag;
    h
}

fn archive() -> Vec<u8> {
    let mut a = Vec::new();
    a.extend(header("./", 0, b'5'));
    a.extend(header("./hello.txt", 5, b'0'));
    let mut body = b"hello".to_vec();
    body.resize(512, 0);
    a.extend(body);
    a.extend(header("./bin/", 0, b'5'));
    a.extend(header("./bin/sh", 0, b'0'));
    a.extend(header("./link", 0, b'2'));
    a.extend(vec![0u8; 1024]);
    a
}

#[test]
fn octal_fields() {
    assert_eq!(parse_octal(b"00000000017"), 15);
    assert_eq!(parse_octal(b"755 "), 0o755);
    assert_eq!(parse_octal(b""), 0);
    assert_eq!(parse_octal(b"9"), 0);
    assert_eq!(trim_nul(b"\0\0abc\0\0"), b"abc");
    assert_eq!(trim_nul(b"\0\0"), b"");
}

#[test]
fn tar_iterator_walks_entries() {
    let data = archive();
    let mut it = TarEntiresIterator::new(&data);
    match it.next() {
        Some(TarEntry::Directory { name }) => assert_eq!(name, b"./"),
        other => panic!("unexpected {:?}", other),
    }
    match it.next() {
        Some(TarEntry::File { name, data }) => {
            assert_eq!(name, b"./hello.txt");
            assert_eq!(data, b"hello");
        }
        other => panic!("unexpected {:?}", other),
    }
    match it.next() {
        Some(TarEntry::Directory { name }) => assert_eq!(name, b"./bin/"),
        other => panic!("unexpected {:?}", other),
    }
    match it.next() {
        Some(TarEntry::File { name, data }) => {
            assert_eq!(name, b"./bin/sh");
            assert!(data.is_empty());
        }
        other => panic!("unexpected {:?}", other),
    }
    match it.next() {
        Some(TarEntry::Other { name, typeflag }) => {
            assert_eq!(name, b"./link");
            assert_eq!(typeflag, b'2');
        }
        other => panic!("unexpected {:?}", other),
    }
    assert!(it.next().is_none());
    assert!(it.next().is_none());
}

#[test]
fn ramfs_fills_the_tree() {
    let data = archive();
    let mut vfs: TestVfs = Vfs::new();
    assert_eq!(init_ramfs(&mut vfs, &data, |d: &[u8]| d.to_vec()), Ok(()));
    let root = vfs.get_root_node_id();
    let hello = vfs.resolve_path(root, b"/hello.txt").unwrap();
    match vfs.get(hello) {
        Some(VfsNode::File(f)) => assert_eq!(f, b"hello"),
        _ => panic!("not a file"),
    }
    let bin = vfs.resolve_path(root, b"/bin").unwrap();
    assert!(vfs.get(bin).unwrap().is_dir());
    let sh = vfs.resolve_path(bin, b"sh").unwrap();
    assert!(vfs.get(sh).unwrap().is_file());
    assert_eq!(vfs.resolve_path(root, b"/link"), Err(Error::NoSuchFileOrDirectory));
}

#[test]
fn byte_string_helpers() {
    assert!(bytes_lt(b"abc", b"abd"));
    assert!(bytes_lt(b"ab", b"abc"));
    assert!(!bytes_lt(b"abc", b"abc"));
    assert!(!bytes_lt(b"b", b"abc"));
    assert!(bytes_eq(b"x", b"x"));
    assert!(!bytes_eq(b"x", b"xy"));
    assert_eq!(copy_bytes(b"copy"), b"copy".to_vec());
    assert_eq!(trim_end_slashes(b"/a/b//"), b"/a/b");
    assert_eq!(trim_end_slashes(b"///"), b"");
}

#[test]
fn directory_keeps_children_sorted() {
    let mut d = VfsDirectory { parent: None, children: Vec::new() };
    d.insert(b"zeta", VfsNodeId(1));
    d.insert(b"alpha", VfsNodeId(2));
    d.insert(b"mid", VfsNodeId(3));
    let names: Vec<&[u8]> = d.children.iter().map(|(n, _)| n.as_slice()).collect();
    assert_eq!(names, vec![&b"alpha"[..], &b"mid"[..], &b"zeta"[..]]);
    assert_eq!(d.get(b"mid"), Some(VfsNodeId(3)));
    // entering a name that is there replaces its id
    d.insert(b"mid", VfsNodeId(9));
    assert_eq!(d.get(b"mid"), Some(VfsNodeId(9)));
    assert_eq!(d.children.len(), 3);
    d.remove(b"mid");
    assert_eq!(d.get(b"mid"), None);
    assert_eq!(d.get(b"alpha"), Some(VfsNodeId(2)));
    d.remove(b"absent");
    assert_eq!(d.children.len(), 2);
}

#[test]
fn vfs_mkdir_mount_and_resolve() {
    let mut vfs: TestVfs = Vfs::new();
    let root = vfs.get_root_node_id();
    assert_eq!(root, VfsNodeId(0));
    let dir = vfs.mkdir(root, b"/dir").unwrap();
    assert_eq!(vfs.mkdir(root, b"/dir/"), Err(Error::AlreadyExists));
    assert_eq!(vfs.mkdir(root, b"/"), Err(Error::AlreadyExists));
    let file = vfs.mount(root, b"/dir/file", b"data".to_vec()).unwrap();
    assert_eq!(vfs.resolve_path(root, b"/dir/file"), Ok(file));
    assert_eq!(vfs.resolve_path(dir, b"file"), Ok(file));
    assert_eq!(vfs.resolve_path(dir, b"./file"), Ok(file));
    assert_eq!(vfs.resolve_path(dir, b"../dir/file"), Ok(file));
    assert_eq!(vfs.resolve_path(root, b".."), Ok(root));
    assert_eq!(vfs.resolve_path(root, b"/"), Ok(root));
    assert_eq!(vfs.resolve_path(root, b"/nope"), Err(Error::NoSuchFileOrDirectory));
    assert_eq!(vfs.resolve_path(root, b"/dir/file/x"), Err(Error::NotADirectory));
    assert_eq!(vfs.resolve_path(file, b"x"), Err(Error::NotADirectory));
    assert_eq!(vfs.mkdir(root, b"/missing/sub"), Err(Error::NoSuchFileOrDirectory));
    assert_eq!(vfs.split_leaf(root, b"/dir/file"), Ok((&b"file"[..], dir)));
    assert_eq!(vfs.get(VfsNodeId(77)).is_none(), true);
    assert_eq!(vfs.get(dir).unwrap().as_file().err(), Some(Error::NotAFile));
    assert_eq!(vfs.get(file).unwrap().as_dir().err(), Some(Error::NotADirectory));
}

#[test]
fn vfs_open_creates_only_when_asked() {
    let mut vfs: TestVfs = Vfs::new();
    let root = vfs.get_root_node_id();
    vfs.mkdir(root, b"/d").unwrap();
    assert_eq!(
        vfs.open(root, b"/new", OpenOptions::from_bits_retain(OpenOptions::RDONLY), Vec::new()),
        Err(Error::NoSuchFileOrDirectory)
    );
    let id = vfs.open(root, b"/new", OpenOptions::create(), b"x".to_vec()).unwrap();
    assert_eq!(vfs.resolve_path(root, b"/new"), Ok(id));
    // opening again finds the same node and does not replace it
    assert_eq!(vfs.open(root, b"/new", OpenOptions::create(), b"y".to_vec()), Ok(id));
    match vfs.get(id) {
        Some(VfsNode::File(f)) => assert_eq!(f, b"x"),
        _ => panic!("not a file"),
    }
    assert_eq!(vfs.open(root, b"/d", OpenOptions::create(), Vec::new()), Err(Error::NotAFile));
}

#[test]
fn vfs_unlink_and_rmdir() {
    let mut vfs: TestVfs = Vfs::new();
    let root = vfs.get_root_node_id();
    vfs.mkdir(root, b"/d").unwrap();
    vfs.mount(root, b"/d/f", Vec::new()).unwrap();
    assert_eq!(vfs.rmdir(root, b"/d"), Err(Error::DirectoryNotEmpty));
    assert_eq!(vfs.unlink(root, b"/d"), Err(Error::NotAFile));
    assert_eq!(vfs.rmdir(root, b"/d/f"), Err(Error::NotADirectory));
    assert_eq!(vfs.unlink(root, b"/d/f"), Ok(()));
    assert_eq!(vfs.resolve_path(root, b"/d/f"), Err(Error::NoSuchFileOrDirectory));
    assert_eq!(vfs.unlink(root, b"/d/f"), Err(Error::NoSuchFileOrDirectory));
    assert_eq!(vfs.rmdir(root, b"/d"), Ok(()));
    assert_eq!(vfs.resolve_path(root, b"/d"), Err(Error::NoSuchFileOrDirectory));
}

#[test]
fn vfs_devices() {
    let mut vfs: TestVfs = Vfs::new();
    let root = vfs.get_root_node_id();
    vfs.mkdir(root, b"/dev").unwrap();
    assert_eq!(vfs.register_device(root, b"/dev/kbd", 5), Ok(()));
    assert_eq!(vfs.register_device(root, b"/dev/kbd", 6), Err(Error::AlreadyExists));
    let id = vfs.resolve_path(root, b"/dev/kbd").unwrap();
    match vfs.get(id) {
        Some(VfsNode::Device(d)) => assert_eq!(*d, 5),
        _ => panic!("not a device"),
    }
}

#[test]
fn vfs_tree_listing() {
    let mut vfs: TestVfs = Vfs::new();
    let root = vfs.get_root_node_id();
    vfs.mount(root, b"/etc", Vec::new()).unwrap();
    vfs.mkdir(root, b"/bin").unwrap();
    vfs.mount(root, b"/bin/sh", Vec::new()).unwrap();
    assert!(vfs.tree_listable(root));
    let out = vfs.tree_lsdir(root).unwrap();
    assert_eq!(
        String::from_utf8(out).unwrap(),
        "├──  bin\n│   └──  sh\n└──  etc\n"
    );
    let etc = vfs.resolve_path(root, b"/etc").unwrap();
    assert_eq!(vfs.tree_lsdir(etc), Err(Error::NotADirectory));
    assert_eq!(vfs.tree_lsdir(VfsNodeId(99)), Err(Error::NoSuchFileOrDirectory));
}

#[test]
fn handle_reads_and_moves_position() {
    let data = b"hello world";
    let mut pos = 6usize;
    let mut buf = [0u8; 3];
    assert_eq!(read_at(data, &mut pos, &mut buf), Ok(3));
    assert_eq!(&buf, b"wor");
    assert_eq!(pos, 9);
    assert_eq!(read_at(data, &mut pos, &mut buf), Ok(2));
    assert_eq!(&buf[..2], b"ld");
    assert_eq!(read_at(data, &mut pos, &mut buf), Ok(0));
    assert_eq!(pos, 11);
}

#[test]
fn handle_writes_grow_the_file() {
    let mut data = b"abc".to_vec();
    let mut pos = 5usize;
    assert_eq!(write_at(&mut data, &mut pos, true, b"xy"), Ok(2));
    assert_eq!(data, b"abc\0\0xy");
    assert_eq!(pos, 7);
    let mut pos = 1usize;
    assert_eq!(write_at(&mut data, &mut pos, true, b"Z"), Ok(1));
    assert_eq!(data, b"aZc\0\0xy");
    assert_eq!(write_at(&mut data, &mut pos, false, b"Q"), Err(Error::BadFileDescriptor));
    assert_eq!(data, b"aZc\0\0xy");
    assert_eq!(pos, 2);
}

#[test]
fn handle_write_then_read_back() {
    let mut data = Vec::new();
    let mut wpos = 0usize;
    write_at(&mut data, &mut wpos, true, b"kernel").unwrap();
    let mut rpos = 0usize;
    let mut buf = [0u8; 6];
    assert_eq!(read_at(&data, &mut rpos, &mut buf), Ok(6));
    assert_eq!(&buf, b"kernel");
}

#[test]
fn handle_seeks() {
    let mut pos = 3usize;
    assert_eq!(seek_to(&mut pos, 10, SeekFrom::Start(8)), Ok(8));
    assert_eq!(pos, 8);
    assert_eq!(seek_to(&mut pos, 10, SeekFrom::End(-3)), Ok(7));
    assert_eq!(pos, 7);
    assert_eq!(seek_to(&mut pos, 10, SeekFrom::Current(-11)), Err(Error::InvalidValue));
    assert_eq!(pos, 7);
    assert_eq!(seek_to(&mut pos, 10, SeekFrom::End(-11)), Err(Error::InvalidValue));
    assert_eq!(pos, 7);
}

#[test]
fn seek_relative_moves_the_position() {
    let mut pos = 5usize;
    assert_eq!(seek_to(&mut pos, 10, SeekFrom::Current(2)), Ok(7));
    assert_eq!(pos, 7);
    assert_eq!(seek_to(&mut pos, 10, SeekFrom::Current(-7)), Ok(0));
    assert_eq!(seek_to(&mut pos, 10, SeekFrom::End(4)), Ok(14));
    assert_eq!(pos, 14);
}

#[test]
fn handle_state_from_flags() {
    let append_w = OpenOptions::from_bits_retain(OpenOptions::WRONLY | OpenOptions::APPEND);
    assert_eq!(dynamic_handle_state(42, append_w), (42, true));
    let rw = OpenOptions::from_bits_retain(OpenOptions::RW);
    assert_eq!(dynamic_handle_state(42, rw), (0, true));
    let read_only = OpenOptions::from_bits_retain(OpenOptions::RDONLY);
    assert_eq!(dynamic_handle_state(42, read_only), (0, false));
    let append = OpenOptions::from_bits_retain(OpenOptions::APPEND);
    assert_eq!(dynamic_handle_state(42, append), (42, false));
    assert!(append_w.contains(OpenOptions::from_bits_retain(OpenOptions::APPEND)));
    assert!(!rw.contains(OpenOptions::from_bits_retain(OpenOptions::CREATE)));
}

#[test]
fn read_write_handle_writes_from_the_start() {
    let rw = OpenOptions::from_bits_retain(OpenOptions::RW);
    let mut data = b"hello".to_vec();
    let (mut pos, writable) = dynamic_handle_state(data.len(), rw);
    assert_eq!(write_at(&mut data, &mut pos, writable, b"J"), Ok(1));
    assert_eq!(data, b"Jello".to_vec());
    assert_eq!(pos, 1);
}

#[test]
fn archives_are_checked_before_use() {
    assert!(check_archive(&archive()));
    assert!(check_archive(&[]));
    let mut cut = archive();
    cut.truncate(512 * 2 + 3);
    // the data of hello.txt runs past the end
    assert!(!check_archive(&cut));
}

#[test]
fn nodes_can_be_changed_in_place() {
    let mut file: VfsNode<Vec<u8>, u32> = VfsNode::File(b"ab".to_vec());
    file.as_file_mut().unwrap().push(b'c');
    assert_eq!(file.as_file().unwrap(), b"abc");
    assert_eq!(file.as_dir_mut().err(), Some(Error::NotADirectory));
    let mut dir: VfsNode<Vec<u8>, u32> = VfsNode::Directory(VfsDirectory { parent: None, children: Vec::new() });
    dir.as_dir_mut().unwrap().insert(b"x", VfsNodeId(4));
    assert_eq!(dir.as_dir().unwrap().get(b"x"), Some(VfsNodeId(4)));
    assert_eq!(dir.as_file_mut().err(), Some(Error::NotAFile));
}
