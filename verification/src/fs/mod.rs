//! The file system: the ramfs archive reader and the virtual file system tree.
use vstd::prelude::*;

use crate::fs::tar::{archive_valid, at_end, entry_span, header_name, header_size, header_type, is_file_type, TarEntiresIterator, TarEntry, BLOCK_SIZE};
use crate::fs::vfs::{mkdir_effect, mount_effect, Vfs, VfsNode, VfsNodeId};
use crate::io::Error;

pub mod tar;
pub mod vfs;
pub mod data_handle;

verus! {

/// How a file is opened: a set of flag bits.
#[derive(Debug, Clone, Copy, PartialEq, Eq, Structural)]
pub struct OpenOptions {
    pub bits: u32,
}

impl OpenOptions {
    pub const RDONLY: u32 = 1;
    pub const WRONLY: u32 = 2;
    pub const APPEND: u32 = 4;
    pub const TRUNCATE: u32 = 8;
    pub const CREATE: u32 = 16;
    pub const RW: u32 = 3;

    /// The options with exactly the flag bits `bits`.
    pub fn from_bits_retain(bits: u32) -> (r: OpenOptions)
        ensures
            r.bits == bits,
    {
        OpenOptions { bits }
    }

    /// Only `CREATE`.
    pub fn create() -> (r: OpenOptions)
        ensures
            r.bits == OpenOptions::CREATE,
    {
        OpenOptions { bits: OpenOptions::CREATE }
    }

    /// Every flag of `other` is set in `self`.
    pub fn contains(&self, other: OpenOptions) -> (r: bool)
        ensures
            r == (self.bits & other.bits == other.bits),
    {
        self.bits & other.bits == other.bits
    }

    /// The options ask for the file to be created when it does not exist.
    pub open spec fn creates(&self) -> bool {
        self.bits & OpenOptions::CREATE == OpenOptions::CREATE
    }
}

/// Where a seek moves the position to.
#[derive(Debug, Clone, Copy, PartialEq, Eq, Structural)]
pub enum SeekFrom {
    /// To the given byte.
    Start(usize),
    /// By the given number of bytes from the current position.
    Current(isize),
    /// By the given number of bytes from the end.
    End(isize),
}

/// The outcome of adding a node, without the node's id.
pub open spec fn unit_result(r: Result<VfsNodeId, Error>) -> Result<(), Error> {
    match r {
        Ok(_) => Ok(()),
        Err(e) => Err(e),
    }
}

/// `new` and `r` are what the archive entry at offset `o` of `data` does to the nodes `old`
/// of a tree with root `root`: a file is mounted with the contents `f` at its name without
/// the leading `.`, relative to the root; a directory other than `./` is created likewise;
/// other entries change nothing.
pub open spec fn ramfs_entry_effect<F, D>(
    data: Seq<u8>,
    o: int,
    root: VfsNodeId,
    f: F,
    old: Seq<Option<VfsNode<F, D>>>,
    new: Seq<Option<VfsNode<F, D>>>,
    r: Result<(), Error>,
) -> bool {
    let name = header_name(data, o);
    let t = header_type(data, o);
    if is_file_type(t) && name.len() > 0 {
        exists|id: Result<VfsNodeId, Error>| #[trigger] mount_effect(old, new, root, root, name.drop_first(), f, id) && r == unit_result(id)
    } else if t == 0x35 && name != seq![0x2Eu8, 0x2Fu8] && name.len() > 0 {
        exists|id: Result<VfsNodeId, Error>| #[trigger] mkdir_effect(old, new, root, root, name.drop_first(), id) && r == unit_result(id)
    } else {
        new == old && r == Ok::<(), Error>(())
    }
}

/// `f` is what `make_file` made of the bytes `bytes`.
pub open spec fn made_from<'a, F, M: Fn(&'a [u8]) -> F>(make_file: M, bytes: Seq<u8>, f: F) -> bool {
    exists|d: &'a [u8]| d@ == bytes && #[trigger] call_ensures(make_file, (d,), f)
}

/// Filling the tree with root `root` from the archive `data` went through the nodes
/// `states`, taking the entries at the offsets `offs` one after the other, with the contents
/// `files` made for the file entries by `make_file`, and ended with `r`: every entry but the
/// last one taken was added; the last one answered `r`; on success the archive ends after it.
pub open spec fn ramfs_run<'a, F, D, M: Fn(&'a [u8]) -> F>(
    data: Seq<u8>,
    root: VfsNodeId,
    make_file: M,
    offs: Seq<int>,
    states: Seq<Seq<Option<VfsNode<F, D>>>>,
    files: Seq<F>,
    r: Result<(), Error>,
) -> bool {
    let n = offs.len() - 1;
    &&& offs.len() >= 1
    &&& states.len() == offs.len()
    &&& files.len() == n
    &&& offs[0] == 0
    &&& forall|k: int| 0 <= k < n ==> !at_end(data, #[trigger] offs[k]) && offs[k + 1] == offs[k] + entry_span(header_size(data, offs[k]))
    &&& forall|k: int| 0 <= k < n && is_file_type(header_type(data, #[trigger] offs[k])) && header_name(data, offs[k]).len() > 0 ==> made_from(make_file,
        data.subrange(offs[k] + BLOCK_SIZE, offs[k] + BLOCK_SIZE + header_size(data, offs[k])), files[k])
    &&& forall|k: int| 0 <= k < n - 1 ==> ramfs_entry_effect(data, #[trigger] offs[k], root, files[k], states[k], states[k + 1], Ok(()))
    &&& n > 0 ==> ramfs_entry_effect(data, offs[n - 1], root, files[n - 1], states[n - 1], states[n], r)
    &&& r is Ok ==> at_end(data, offs[n])
    &&& r is Err ==> n > 0
}

/// Fills the tree from the ramfs archive `archive`, entry by entry (see
/// `ramfs_entry_effect`): each file is mounted, with the contents `make_file` makes of its
/// bytes, and each directory created, at its path in the archive without the leading `.`
/// and relative to the root; the archive's own `./` entry and entries of other types are
/// passed over. Stops at the first entry that cannot be added and returns why.
pub fn init_ramfs<'a, F, D, M: Fn(&'a [u8]) -> F>(vfs: &mut Vfs<F, D>, archive: &'a [u8], make_file: M) -> (r: Result<(), Error>)
    requires
        archive_valid(archive@, 0),
        forall|d: &'a [u8]| make_file.requires((d,)),
    ensures
        final(vfs).root == old(vfs).root,
        exists|offs: Seq<int>, states: Seq<Seq<Option<VfsNode<F, D>>>>, files: Seq<F>|
            #[trigger] ramfs_run(archive@, old(vfs).root, make_file, offs, states, files, r) && states[0] == old(vfs).arena@
                && states.last() == final(vfs).arena@,
{
    let root = vfs.get_root_node_id();
    let mut ramfs = TarEntiresIterator::new(archive);
    let ghost d = archive@;
    let ghost mut offs: Seq<int> = seq![0int];
    let ghost mut states: Seq<Seq<Option<VfsNode<F, D>>>> = seq![vfs.arena@];
    let ghost mut files: Seq<F> = Seq::empty();
    loop
        invariant
            ramfs.data == archive,
            d == archive@,
            archive_valid(ramfs.data@, ramfs.offset as int),
            vfs.root == old(vfs).root,
            root == vfs.root,
            forall|d: &'a [u8]| make_file.requires((d,)),
            offs.len() >= 1,
            states.len() == offs.len(),
            files.len() == offs.len() - 1,
            offs[0] == 0,
            offs.last() == ramfs.offset,
            states[0] == old(vfs).arena@,
            states.last() == vfs.arena@,
            forall|k: int| 0 <= k < offs.len() - 1 ==> !at_end(d, #[trigger] offs[k]) && offs[k + 1] == offs[k] + entry_span(header_size(d, offs[k])),
            forall|k: int| 0 <= k < offs.len() - 1 && is_file_type(header_type(d, #[trigger] offs[k])) && header_name(d, offs[k]).len() > 0 ==> made_from(make_file,
                d.subrange(offs[k] + BLOCK_SIZE, offs[k] + BLOCK_SIZE + header_size(d, offs[k])), files[k]),
            forall|k: int| 0 <= k < offs.len() - 1 ==> ramfs_entry_effect(d, #[trigger] offs[k], root, files[k], states[k], states[k + 1], Ok(())),
        decreases (if ramfs.offset <= archive@.len() { archive@.len() + 1 - ramfs.offset } else { 0 }),
    {
        let ghost off = ramfs.offset;
        let ghost before = vfs.arena@;
        proof {
            let o = off as int;
            if o + 512 <= archive@.len() {
                crate::fs::tar::lemma_octal_nonneg(archive@.subrange(o + 124, o + 136), 0);
            }
        }
        let entry = match ramfs.next() {
            Some(e) => e,
            None => {
                proof {
                    assert(ramfs_run(d, root, make_file, offs, states, files, Ok(())));
                }
                return Ok(());
            },
        };
        let ghost mut file: F = vstd::pervasive::arbitrary();
        let ghost mut outcome: Result<(), Error> = Ok(());
        match entry {
            TarEntry::File { name, data } => {
                if name.len() > 0 {
                    let path = &name[1..name.len()];
                    let contents = make_file(data);
                    proof {
                        file = contents;
                        assert(path@ == header_name(d, off as int).drop_first());
                        assert(made_from(make_file, data@, contents));
                    }
                    let res = vfs.mount(root, path, contents);
                    proof {
                        outcome = unit_result(res);
                        assert(mount_effect(before, vfs.arena@, root, root, path@, file, res));
                    }
                    match res {
                        Ok(_) => {},
                        Err(e) => {
                            proof {
                                offs = offs.push(ramfs.offset as int);
                                states = states.push(vfs.arena@);
                                files = files.push(file);
                                assert(ramfs_run(d, root, make_file, offs, states, files, Err(e)));
                            }
                            return Err(e);
                        },
                    }
                }
            },
            TarEntry::Directory { name } => {
                let is_top = name.len() == 2 && name[0] == 0x2E && name[1] == 0x2F;
                proof {
                    if name@ == seq![0x2Eu8, 0x2Fu8] {
                        assert(is_top);
                    }
                    if is_top {
                        assert(name@ =~= seq![0x2Eu8, 0x2Fu8]);
                    }
                }
                if !is_top && name.len() > 0 {
                    let path = &name[1..name.len()];
                    let res = vfs.mkdir(root, path);
                    proof {
                        outcome = unit_result(res);
                        assert(path@ == header_name(d, off as int).drop_first());
                        assert(mkdir_effect(before, vfs.arena@, root, root, path@, res));
                    }
                    match res {
                        Ok(_) => {},
                        Err(e) => {
                            proof {
                                offs = offs.push(ramfs.offset as int);
                                states = states.push(vfs.arena@);
                                files = files.push(file);
                                assert(ramfs_run(d, root, make_file, offs, states, files, Err(e)));
                            }
                            return Err(e);
                        },
                    }
                }
            },
            TarEntry::Other { .. } => {},
        }
        proof {
            offs = offs.push(ramfs.offset as int);
            states = states.push(vfs.arena@);
            files = files.push(file);
            assert(ramfs_entry_effect(d, off as int, root, file, before, vfs.arena@, Ok(())));
        }
        assert(ramfs.offset > off);
    }
}

} // verus!
