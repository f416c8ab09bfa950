//! The virtual file system: a tree of directories, files and devices kept in an arena and
//! addressed by node id, with paths as byte strings separated by `/`.
//!
//! File contents and device handles are kept by the caller (`F` and `D`); this module keeps
//! the tree, resolves paths and decides what each operation does to the tree.
use vstd::prelude::*;

use crate::io::Error;
use crate::fs::OpenOptions;

verus! {

/// The id of a node of the tree: its index in the arena.
#[derive(Debug, Clone, Copy, PartialEq, Eq, Structural)]
pub struct VfsNodeId(pub usize);

/// `a` sorts before `b`, byte by byte, a proper prefix first (the order of `str`).
pub open spec fn lex_lt(a: Seq<u8>, b: Seq<u8>) -> bool
    decreases a.len(),
{
    if b.len() == 0 {
        false
    } else if a.len() == 0 {
        true
    } else if a[0] != b[0] {
        a[0] < b[0]
    } else {
        lex_lt(a.drop_first(), b.drop_first())
    }
}

/// No byte string sorts before itself, and of two different ones exactly one sorts first.
pub proof fn lemma_lex_total(a: Seq<u8>, b: Seq<u8>)
    ensures
        !lex_lt(a, a),
        a != b ==> (lex_lt(a, b) || lex_lt(b, a)),
        !(lex_lt(a, b) && lex_lt(b, a)),
    decreases a.len(),
{
    if a.len() > 0 {
        lemma_lex_total(a.drop_first(), a.drop_first());
        if b.len() > 0 {
            lemma_lex_total(a.drop_first(), b.drop_first());
            if a[0] == b[0] && a != b {
                assert(a.drop_first() != b.drop_first()) by {
                    if a.drop_first() == b.drop_first() {
                        assert(a =~= seq![a[0]] + a.drop_first());
                        assert(b =~= seq![b[0]] + b.drop_first());
                    }
                }
            }
        }
    } else if b.len() == 0 {
        assert(a =~= b);
    }
}

/// The order of byte strings is transitive.
pub proof fn lemma_lex_trans(a: Seq<u8>, b: Seq<u8>, c: Seq<u8>)
    requires
        lex_lt(a, b),
        lex_lt(b, c),
    ensures
        lex_lt(a, c),
    decreases a.len(),
{
    if a.len() > 0 && b.len() > 0 && c.len() > 0 && a[0] == b[0] && b[0] == c[0] {
        lemma_lex_trans(a.drop_first(), b.drop_first(), c.drop_first());
    }
}

/// `a` sorts before `b`.
pub fn bytes_lt(a: &[u8], b: &[u8]) -> (r: bool)
    ensures
        r == lex_lt(a@, b@),
{
    let mut i: usize = 0;
    proof {
        assert(a@.skip(0) =~= a@);
        assert(b@.skip(0) =~= b@);
    }
    while i < a.len() && i < b.len() && a[i] == b[i]
        invariant
            i <= a@.len(),
            i <= b@.len(),
            lex_lt(a@, b@) == lex_lt(a@.skip(i as int), b@.skip(i as int)),
        decreases a@.len() - i,
    {
        proof {
            assert(a@.skip(i as int).drop_first() =~= a@.skip(i + 1));
            assert(b@.skip(i as int).drop_first() =~= b@.skip(i + 1));
        }
        i = i + 1;
    }
    if i == b.len() {
        false
    } else if i == a.len() {
        true
    } else {
        a[i] < b[i]
    }
}

/// The name and id of each entry of a directory.
pub open spec fn entries(children: Seq<(Vec<u8>, VfsNodeId)>) -> Seq<(Seq<u8>, VfsNodeId)> {
    children.map_values(|p: (Vec<u8>, VfsNodeId)| (p.0@, p.1))
}

/// The id of the first entry named `name`.
pub open spec fn lookup(es: Seq<(Seq<u8>, VfsNodeId)>, name: Seq<u8>) -> Option<VfsNodeId>
    decreases es.len(),
{
    if es.len() == 0 {
        None
    } else if es[0].0 == name {
        Some(es[0].1)
    } else {
        lookup(es.drop_first(), name)
    }
}

/// The position at which an entry named `name` is inserted: after the leading entries
/// whose names sort before it.
pub open spec fn insert_pos(es: Seq<(Seq<u8>, VfsNodeId)>, name: Seq<u8>) -> int
    decreases es.len(),
{
    if es.len() > 0 && lex_lt(es[0].0, name) {
        1 + insert_pos(es.drop_first(), name)
    } else {
        0
    }
}

/// `es` with `name` entered as `id`: the entry at the position of `name` (after the
/// leading entries whose names sort before it) gets `id` when it is named `name`; otherwise
/// a new entry is inserted there.
pub open spec fn dir_insert(es: Seq<(Seq<u8>, VfsNodeId)>, name: Seq<u8>, id: VfsNodeId) -> Seq<(Seq<u8>, VfsNodeId)> {
    let p = insert_pos(es, name);
    if 0 <= p < es.len() && es[p].0 == name {
        es.update(p, (name, id))
    } else {
        es.insert(p, (name, id))
    }
}

/// `es` without its entries named `name`.
pub open spec fn without(es: Seq<(Seq<u8>, VfsNodeId)>, name: Seq<u8>) -> Seq<(Seq<u8>, VfsNodeId)> {
    es.filter(|p: (Seq<u8>, VfsNodeId)| p.0 != name)
}

/// The names of `es` are strictly increasing, so each occurs once.
pub open spec fn sorted_names(es: Seq<(Seq<u8>, VfsNodeId)>) -> bool {
    forall|i: int, j: int| 0 <= i < j < es.len() ==> lex_lt((#[trigger] es[i]).0, (#[trigger] es[j]).0)
}

/// A directory: its parent (none for the root) and its entries, sorted by name.
#[derive(Debug)]
pub struct VfsDirectory {
    pub parent: Option<VfsNodeId>,
    pub children: Vec<(Vec<u8>, VfsNodeId)>,
}

impl VfsDirectory {
    /// The entries of this directory.
    pub open spec fn view_entries(&self) -> Seq<(Seq<u8>, VfsNodeId)> {
        entries(self.children@)
    }

    /// The id of the entry named `name`.
    pub fn get(&self, name: &[u8]) -> (r: Option<VfsNodeId>)
        ensures
            r == lookup(self.view_entries(), name@),
    {
        let mut i: usize = 0;
        proof {
            assert(self.view_entries().skip(0) =~= self.view_entries());
        }
        while i < self.children.len()
            invariant
                i <= self.children@.len(),
                lookup(self.view_entries(), name@) == lookup(self.view_entries().skip(i as int), name@),
            decreases self.children@.len() - i,
        {
            proof {
                assert(self.view_entries().skip(i as int).drop_first() =~= self.view_entries().skip(i + 1));
            }
            if bytes_eq(self.children[i].0.as_slice(), name) {
                return Some(self.children[i].1);
            }
            i = i + 1;
        }
        None
    }

    /// Enters `name` → `id` (see `dir_insert`): the entry named `name` that follows the
    /// leading entries whose names sort before it gets `id`; without one, a new entry goes
    /// there.
    pub fn insert(&mut self, name: &[u8], id: VfsNodeId)
        ensures
            final(self).parent == old(self).parent,
            final(self).view_entries() == dir_insert(old(self).view_entries(), name@, id),
    {
        let ghost es = self.view_entries();
        let mut i: usize = 0;
        proof {
            assert(es.skip(0) =~= es);
        }
        while i < self.children.len() && bytes_lt(self.children[i].0.as_slice(), name)
            invariant
                i <= self.children@.len(),
                self.view_entries() == es,
                insert_pos(es, name@) == i + insert_pos(es.skip(i as int), name@),
            decreases self.children@.len() - i,
        {
            proof {
                assert(es.skip(i as int).drop_first() =~= es.skip(i + 1));
            }
            i = i + 1;
        }
        proof {
            if i < self.children@.len() {
                assert(es.skip(i as int)[0] == es[i as int]);
            }
        }
        let owned = copy_bytes(name);
        if i < self.children.len() && bytes_eq(self.children[i].0.as_slice(), name) {
            self.children.set(i, (owned, id));
            proof {
                assert(self.view_entries() =~= es.update(i as int, (name@, id)));
            }
        } else {
            self.children.insert(i, (owned, id));
            proof {
                assert(self.view_entries() =~= es.insert(i as int, (name@, id)));
            }
        }
    }

    /// Drops the entries named `name`.
    pub fn remove(&mut self, name: &[u8])
        ensures
            final(self).parent == old(self).parent,
            final(self).view_entries() == without(old(self).view_entries(), name@),
    {
        let ghost es = self.view_entries();
        let mut i: usize = 0;
        let ghost mut k: int = 0;
        proof {
            assert(es.take(0).filter(|p: (Seq<u8>, VfsNodeId)| p.0 != name@) =~= Seq::empty()) by {
                reveal(Seq::filter);
            }
            assert(self.view_entries() =~= without(es.take(0), name@) + es.skip(0));
        }
        while i < self.children.len()
            invariant
                0 <= k <= es.len(),
                self.parent == old(self).parent,
                i <= self.children@.len(),
                self.view_entries() == without(es.take(k), name@) + es.skip(k),
                i == without(es.take(k), name@).len(),
            decreases self.children@.len() - i,
        {
            proof {
                assert(self.view_entries()[i as int] == es[k]);
                lemma_without_push(es.take(k), es[k], name@);
                assert(es.take(k + 1) =~= es.take(k).push(es[k]));
            }
            let ghost before = self.view_entries();
            if bytes_eq(self.children[i].0.as_slice(), name) {
                self.children.remove(i);
                proof {
                    assert(self.view_entries() =~= before.remove(i as int));
                    assert(before.remove(i as int) =~= without(es.take(k), name@) + es.skip(k + 1));
                    assert(self.view_entries() =~= without(es.take(k + 1), name@) + es.skip(k + 1));
                    k = k + 1;
                }
            } else {
                proof {
                    assert(self.view_entries() =~= without(es.take(k + 1), name@) + es.skip(k + 1));
                    k = k + 1;
                }
                i = i + 1;
            }
        }
        proof {
            assert(es.take(k) =~= es);
            assert(self.view_entries() =~= without(es, name@));
        }
    }
}

proof fn lemma_without_push(es: Seq<(Seq<u8>, VfsNodeId)>, x: (Seq<u8>, VfsNodeId), name: Seq<u8>)
    ensures
        without(es.push(x), name) == (if x.0 != name {
            without(es, name).push(x)
        } else {
            without(es, name)
        }),
{
    reveal(Seq::filter);
    assert(es.push(x).drop_last() =~= es);
}

/// A vector holding the bytes of `s`.
pub fn copy_bytes(s: &[u8]) -> (r: Vec<u8>)
    ensures
        r@ == s@,
{
    let mut r: Vec<u8> = Vec::new();
    let mut i: usize = 0;
    while i < s.len()
        invariant
            i <= s@.len(),
            r@ == s@.take(i as int),
        decreases s@.len() - i,
    {
        r.push(s[i]);
        proof {
            assert(s@.take(i + 1) =~= s@.take(i as int).push(s@[i as int]));
        }
        i = i + 1;
    }
    proof {
        assert(s@.take(s@.len() as int) =~= s@);
    }
    r
}

/// `a` and `b` hold the same bytes.
pub fn bytes_eq(a: &[u8], b: &[u8]) -> (r: bool)
    ensures
        r == (a@ == b@),
{
    if a.len() != b.len() {
        return false;
    }
    let mut i: usize = 0;
    while i < a.len()
        invariant
            a@.len() == b@.len(),
            i <= a@.len(),
            forall|j: int| 0 <= j < i ==> a@[j] == b@[j],
        decreases a@.len() - i,
    {
        if a[i] != b[i] {
            return false;
        }
        i = i + 1;
    }
    proof {
        assert(a@ =~= b@);
    }
    true
}

/// A node of the tree.
pub enum VfsNode<F, D> {
    File(F),
    Directory(VfsDirectory),
    Device(D),
}

impl<F, D> VfsNode<F, D> {
    /// The node is a directory.
    pub fn is_dir(&self) -> (r: bool)
        ensures
            r == (self is Directory),
    {
        match self {
            VfsNode::Directory(..) => true,
            _ => false,
        }
    }

    /// The node is a file.
    pub fn is_file(&self) -> (r: bool)
        ensures
            r == (self is File),
    {
        match self {
            VfsNode::File(..) => true,
            _ => false,
        }
    }

    /// The file this node is; `NotAFile` for other nodes.
    pub fn as_file(&self) -> (r: Result<&F, Error>)
        ensures
            match self {
                VfsNode::File(f) => r == Ok::<&F, Error>(f),
                _ => r == Err::<&F, Error>(Error::NotAFile),
            },
    {
        match self {
            VfsNode::File(f) => Ok(f),
            _ => Err(Error::NotAFile),
        }
    }

    /// The file this node is, to change; `NotAFile` for other nodes.
    pub fn as_file_mut(&mut self) -> (r: Result<&mut F, Error>)
        ensures
            match *old(self) {
                VfsNode::File(f) => r matches Ok(fr) && *fr == f && *final(self) == VfsNode::<F, D>::File(*final(fr)),
                _ => r == Err::<&mut F, Error>(Error::NotAFile) && *final(self) == *old(self),
            },
    {
        match self {
            VfsNode::File(f) => Ok(f),
            _ => Err(Error::NotAFile),
        }
    }

    /// The directory this node is, to change; `NotADirectory` for other nodes.
    pub fn as_dir_mut(&mut self) -> (r: Result<&mut VfsDirectory, Error>)
        ensures
            match *old(self) {
                VfsNode::Directory(d) => r matches Ok(dr) && *dr == d && *final(self) == VfsNode::<F, D>::Directory(*final(dr)),
                _ => r == Err::<&mut VfsDirectory, Error>(Error::NotADirectory) && *final(self) == *old(self),
            },
    {
        match self {
            VfsNode::Directory(d) => Ok(d),
            _ => Err(Error::NotADirectory),
        }
    }

    /// The directory this node is; `NotADirectory` for other nodes.
    pub fn as_dir(&self) -> (r: Result<&VfsDirectory, Error>)
        ensures
            match self {
                VfsNode::Directory(d) => r == Ok::<&VfsDirectory, Error>(d),
                _ => r == Err::<&VfsDirectory, Error>(Error::NotADirectory),
            },
    {
        match self {
            VfsNode::Directory(d) => Ok(d),
            _ => Err(Error::NotADirectory),
        }
    }
}

/// The node stored under `id`, if any.
pub open spec fn node_at<F, D>(arena: Seq<Option<VfsNode<F, D>>>, id: VfsNodeId) -> Option<VfsNode<F, D>> {
    if id.0 < arena.len() {
        arena[id.0 as int]
    } else {
        None
    }
}

/// The byte `/`.
pub const SLASH: u8 = 0x2F;
/// The byte `.`.
pub const DOT: u8 = 0x2E;

/// The component names that stay in place (`""` and `"."`).
pub open spec fn is_here(c: Seq<u8>) -> bool {
    c.len() == 0 || c == seq![DOT]
}

/// The component name `".."`.
pub open spec fn is_up(c: Seq<u8>) -> bool {
    c == seq![DOT, DOT]
}

/// The index of the first `/` of `p`, or its length when it has none.
pub open spec fn first_slash(p: Seq<u8>) -> int
    decreases p.len(),
{
    if p.len() == 0 || p[0] == SLASH {
        0
    } else {
        1 + first_slash(p.drop_first())
    }
}

/// The node that component `c` leads to from `cur`: `""` and `"."` stay, `".."` goes to the
/// parent (the root stays), any other name to the entry of that name.
pub open spec fn step<F, D>(arena: Seq<Option<VfsNode<F, D>>>, cur: VfsNodeId, c: Seq<u8>) -> Result<VfsNodeId, Error> {
    if is_here(c) {
        Ok(cur)
    } else {
        match node_at(arena, cur) {
            None => Err(Error::StaleId),
            Some(VfsNode::Directory(d)) => if is_up(c) {
                match d.parent {
                    Some(p) => Ok(p),
                    None => Ok(cur),
                }
            } else {
                match lookup(d.view_entries(), c) {
                    Some(id) => Ok(id),
                    None => Err(Error::NoSuchFileOrDirectory),
                }
            },
            Some(_) => Err(Error::NotADirectory),
        }
    }
}

/// The node that the `/`-separated components of `p` lead to from `cur`, or the first
/// error met.
pub open spec fn walk<F, D>(arena: Seq<Option<VfsNode<F, D>>>, cur: VfsNodeId, p: Seq<u8>) -> Result<VfsNodeId, Error>
    decreases p.len(),
{
    let i = first_slash(p);
    if i < 0 || i >= p.len() {
        step(arena, cur, p)
    } else {
        match step(arena, cur, p.take(i)) {
            Ok(n) => walk(arena, n, p.skip(i + 1)),
            Err(e) => Err(e),
        }
    }
}

/// The node at `path` from the directory `cwd` (from the root for an absolute path), or
/// why there is none; `NotADirectory` when `cwd` is not a directory.
pub open spec fn resolve<F, D>(arena: Seq<Option<VfsNode<F, D>>>, root: VfsNodeId, cwd: VfsNodeId, path: Seq<u8>) -> Result<VfsNodeId, Error> {
    if !(node_at(arena, cwd) matches Some(VfsNode::Directory(_))) {
        Err(Error::NotADirectory)
    } else if path.len() > 0 && path[0] == SLASH {
        walk(arena, root, path)
    } else {
        walk(arena, cwd, path)
    }
}

proof fn lemma_first_slash(p: Seq<u8>)
    ensures
        0 <= first_slash(p) <= p.len(),
        forall|k: int| 0 <= k < first_slash(p) ==> p[k] != SLASH,
        first_slash(p) < p.len() ==> p[first_slash(p)] == SLASH,
    decreases p.len(),
{
    if p.len() > 0 && p[0] != SLASH {
        lemma_first_slash(p.drop_first());
        assert forall|k: int| 0 <= k < first_slash(p) implies p[k] != SLASH by {
            if k > 0 {
                assert(p[k] == p.drop_first()[k - 1]);
            }
        }
    }
}


/// `p` without the slashes at its end.
pub open spec fn without_trailing_slashes(p: Seq<u8>) -> Seq<u8>
    decreases p.len(),
{
    if p.len() > 0 && p.last() == SLASH {
        without_trailing_slashes(p.drop_last())
    } else {
        p
    }
}

/// `p` without the slashes at its end.
pub fn trim_end_slashes(p: &[u8]) -> (r: &[u8])
    ensures
        r@ == without_trailing_slashes(p@),
{
    let mut k = p.len();
    proof {
        assert(p@.take(p@.len() as int) =~= p@);
    }
    while k > 0 && p[k - 1] == SLASH
        invariant
            k <= p@.len(),
            without_trailing_slashes(p@) == without_trailing_slashes(p@.take(k as int)),
        decreases k,
    {
        proof {
            assert(p@.take(k as int).drop_last() =~= p@.take(k - 1));
        }
        k = k - 1;
    }
    let r = &p[0..k];
    proof {
        assert(r@ =~= p@.take(k as int));
    }
    r
}

/// The index of the last `/` of `p`, or -1 when it has none.
pub open spec fn last_slash(p: Seq<u8>) -> int
    decreases p.len(),
{
    if p.len() == 0 {
        -1
    } else if p.last() == SLASH {
        p.len() - 1
    } else {
        last_slash(p.drop_last())
    }
}

/// The last component of `path` and the directory it is to be found in: `path` splits at
/// its last `/` (an empty part before it meaning the root), a path without `/` names an
/// entry of `cwd`; `InvalidValue` when the last component is empty, `.` or `..`.
pub open spec fn split_leaf_spec<F, D>(arena: Seq<Option<VfsNode<F, D>>>, root: VfsNodeId, cwd: VfsNodeId, path: Seq<u8>) -> Result<(Seq<u8>, VfsNodeId), Error> {
    let j = last_slash(path);
    let leaf = if j < 0 {
        path
    } else {
        path.skip(j + 1)
    };
    if is_here(leaf) || is_up(leaf) {
        Err(Error::InvalidValue)
    } else if j < 0 {
        Ok((leaf, cwd))
    } else {
        let parent = if j == 0 {
            seq![SLASH]
        } else {
            path.take(j)
        };
        match resolve(arena, root, cwd, parent) {
            Ok(pid) => Ok((leaf, pid)),
            Err(e) => Err(e),
        }
    }
}

/// `new` is `old` with one node appended as `new_id` and recorded as entry `name` of the
/// directory `pid`, inserted in name order; nothing else changes.
pub open spec fn added_entry<F, D>(
    old: Seq<Option<VfsNode<F, D>>>,
    new: Seq<Option<VfsNode<F, D>>>,
    pid: VfsNodeId,
    name: Seq<u8>,
    new_id: VfsNodeId,
) -> bool {
    &&& new_id.0 == old.len()
    &&& new.len() == old.len() + 1
    &&& forall|i: int| 0 <= i < old.len() && i != pid.0 ==> #[trigger] new[i] == old[i]
    &&& node_at(old, pid) matches Some(VfsNode::Directory(d)) && node_at(new, pid) matches Some(
        VfsNode::Directory(d2),
    ) && d2.parent == d.parent && d2.view_entries() == d.view_entries().insert(
        insert_pos(d.view_entries(), name),
        (name, new_id),
    )
}

/// What adding an entry `name` to the node `pid` gives: the new node's id when `pid` is a
/// directory without an entry of that name; `NotADirectory` when it is another node.
pub open spec fn add_child_outcome<F, D>(arena: Seq<Option<VfsNode<F, D>>>, pid: VfsNodeId, name: Seq<u8>) -> Result<VfsNodeId, Error> {
    match node_at(arena, pid) {
        None => Err(Error::NoSuchFileOrDirectory),
        Some(VfsNode::Directory(d)) => if lookup(d.view_entries(), name) is Some {
            Err(Error::AlreadyExists)
        } else {
            Ok(VfsNodeId(arena.len() as usize))
        },
        Some(_) => Err(Error::NotADirectory),
    }
}

/// `new` is what adding `node` as entry `name` of `pid` leaves: the node appended and
/// entered in `pid` on success; appended alone, where nothing reaches it, when `pid` is not
/// a directory; nothing changed otherwise.
pub open spec fn add_child_effect<F, D>(
    old: Seq<Option<VfsNode<F, D>>>,
    new: Seq<Option<VfsNode<F, D>>>,
    pid: VfsNodeId,
    name: Seq<u8>,
    node: VfsNode<F, D>,
) -> bool {
    match add_child_outcome(old, pid, name) {
        Ok(id) => added_entry(old, new, pid, name, id) && new[id.0 as int] == Some(node),
        Err(Error::NotADirectory) => new == old.push(Some(node)),
        Err(_) => new == old,
    }
}

/// `new` and `r` are what mounting `file` at `path` (from `cwd`, in a tree with root `root`)
/// leaves of the nodes `old` and answers: the file is added as an entry of the directory
/// that `path` leads to (see `add_child_effect`), or the path's error comes back.
pub open spec fn mount_effect<F, D>(
    old: Seq<Option<VfsNode<F, D>>>,
    new: Seq<Option<VfsNode<F, D>>>,
    root: VfsNodeId,
    cwd: VfsNodeId,
    path: Seq<u8>,
    file: F,
    r: Result<VfsNodeId, Error>,
) -> bool {
    match split_leaf_spec(old, root, cwd, path) {
        Err(e) => r == Err::<VfsNodeId, Error>(e) && new == old,
        Ok((name, pid)) => {
            &&& r == add_child_outcome(old, pid, name)
            &&& add_child_effect(old, new, pid, name, VfsNode::File(file))
        },
    }
}

/// `new` and `r` are what creating the directory `path` (trailing slashes ignored, from
/// `cwd`, in a tree with root `root`) leaves of the nodes `old` and answers: an empty
/// directory is added as an entry of the directory that `path` leads to, or the path's
/// error comes back; the root itself already exists.
pub open spec fn mkdir_effect<F, D>(
    old: Seq<Option<VfsNode<F, D>>>,
    new: Seq<Option<VfsNode<F, D>>>,
    root: VfsNodeId,
    cwd: VfsNodeId,
    path: Seq<u8>,
    r: Result<VfsNodeId, Error>,
) -> bool {
    if path == seq![SLASH] {
        r == Err::<VfsNodeId, Error>(Error::AlreadyExists) && new == old
    } else {
        match split_leaf_spec(old, root, cwd, without_trailing_slashes(path)) {
            Err(e) => r == Err::<VfsNodeId, Error>(e) && new == old,
            Ok((name, pid)) => {
                &&& r == add_child_outcome(old, pid, name)
                &&& exists|nd: VfsDirectory| nd.parent == Some(pid) && nd.children@.len() == 0 && add_child_effect(old, new, pid, name, VfsNode::Directory(nd))
            },
        }
    }
}

/// The node that opening `path` gives: the existing file or device of that name; a new
/// file (the next id) when there is none and `create` is set.
pub open spec fn open_outcome<F, D>(arena: Seq<Option<VfsNode<F, D>>>, root: VfsNodeId, cwd: VfsNodeId, path: Seq<u8>, create: bool) -> Result<VfsNodeId, Error> {
    match split_leaf_spec(arena, root, cwd, path) {
        Err(e) => Err(e),
        Ok((name, pid)) => match node_at(arena, pid) {
            None => Err(Error::NoSuchFileOrDirectory),
            Some(VfsNode::Directory(d)) => match lookup(d.view_entries(), name) {
                Some(fid) => match node_at(arena, fid) {
                    None => Err(Error::StaleId),
                    Some(VfsNode::Directory(_)) => Err(Error::NotAFile),
                    Some(_) => Ok(fid),
                },
                None => if create {
                    Ok(VfsNodeId(arena.len() as usize))
                } else {
                    Err(Error::NoSuchFileOrDirectory)
                },
            },
            Some(_) => Err(Error::NotADirectory),
        },
    }
}

/// Opening `path` creates a file: no entry of that name exists in its directory and
/// `create` is set.
pub open spec fn open_creates<F, D>(arena: Seq<Option<VfsNode<F, D>>>, root: VfsNodeId, cwd: VfsNodeId, path: Seq<u8>, create: bool) -> bool {
    &&& create
    &&& split_leaf_spec(arena, root, cwd, path) matches Ok((name, pid))
    &&& node_at(arena, pid) matches Some(VfsNode::Directory(d))
    &&& lookup(d.view_entries(), name) is None
}

/// `new` is `old` with entry `name` dropped from the directory `pid` and the node `t` gone.
pub open spec fn removed_entry<F, D>(
    old: Seq<Option<VfsNode<F, D>>>,
    new: Seq<Option<VfsNode<F, D>>>,
    pid: VfsNodeId,
    name: Seq<u8>,
    t: VfsNodeId,
) -> bool {
    &&& new.len() == old.len()
    &&& forall|i: int| 0 <= i < old.len() && i != pid.0 && i != t.0 ==> #[trigger] new[i] == old[i]
    &&& t.0 < new.len() && new[t.0 as int] is None
    &&& t != pid ==> (node_at(old, pid) matches Some(VfsNode::Directory(d)) && node_at(new, pid) matches Some(
        VfsNode::Directory(d2),
    ) && d2.parent == d.parent && d2.view_entries() == without(d.view_entries(), name))
}

/// The node that removing `path` would remove, or why it cannot be removed: `dir` says
/// whether a directory (which must be empty and not the root) or a file is removed.
pub open spec fn remove_outcome<F, D>(arena: Seq<Option<VfsNode<F, D>>>, root: VfsNodeId, cwd: VfsNodeId, path: Seq<u8>, dir: bool) -> Result<VfsNodeId, Error> {
    match split_leaf_spec(arena, root, cwd, path) {
        Err(e) => Err(e),
        Ok((name, pid)) => match node_at(arena, pid) {
            None => Err(Error::NoSuchFileOrDirectory),
            Some(VfsNode::Directory(d)) => match lookup(d.view_entries(), name) {
                None => Err(Error::NoSuchFileOrDirectory),
                Some(t) => if dir {
                    if t == root {
                        Err(Error::InvalidValue)
                    } else {
                        match node_at(arena, t) {
                            None => Err(Error::StaleId),
                            Some(VfsNode::Directory(td)) => if td.children@.len() > 0 {
                                Err(Error::DirectoryNotEmpty)
                            } else {
                                Ok(t)
                            },
                            Some(_) => Err(Error::NotADirectory),
                        }
                    }
                } else {
                    match node_at(arena, t) {
                        None => Err(Error::StaleId),
                        Some(VfsNode::File(_)) => Ok(t),
                        Some(_) => Err(Error::NotAFile),
                    }
                },
            },
            Some(_) => Err(Error::NotADirectory),
        },
    }
}

/// The indentation that a line of the tree listing gets for each enclosing directory: a
/// vertical bar where that directory has later siblings, blanks where it was the last.
pub open spec fn indent(prefixes: Seq<bool>) -> Seq<u8>
    decreases prefixes.len(),
{
    if prefixes.len() == 0 {
        Seq::empty()
    } else {
        indent(prefixes.drop_last()) + if prefixes.last() {
            seq![0x20u8, 0x20, 0x20, 0x20]
        } else {
            seq![0xE2u8, 0x94, 0x82, 0x20, 0x20, 0x20]
        }
    }
}

/// Under enclosing directories that were each the last entry of their parent, a listing
/// line is indented by four blanks per directory and by nothing else: no vertical bar is
/// drawn below a last entry.
pub proof fn lemma_indent_under_last(prefixes: Seq<bool>)
    requires
        forall|k: int| 0 <= k < prefixes.len() ==> prefixes[k],
    ensures
        indent(prefixes) == Seq::new((4 * prefixes.len()) as nat, |i: int| 0x20u8),
    decreases prefixes.len(),
{
    if prefixes.len() > 0 {
        let p = prefixes.drop_last();
        assert forall|k: int| 0 <= k < p.len() implies p[k] by {
            assert(p[k] == prefixes[k]);
        }
        lemma_indent_under_last(p);
        assert(prefixes.last());
        assert(indent(prefixes) =~= Seq::new((4 * prefixes.len()) as nat, |i: int| 0x20u8));
    }
}

/// The indentation of a listing line holds a vertical bar (whose UTF-8 form is the only
/// source of the byte 0xE2 in it) exactly when some enclosing directory has later siblings.
pub proof fn lemma_indent_bar(prefixes: Seq<bool>)
    ensures
        indent(prefixes).contains(0xE2u8) <==> exists|k: int| 0 <= k < prefixes.len() && !prefixes[k],
    decreases prefixes.len(),
{
    if prefixes.len() > 0 {
        let p = prefixes.drop_last();
        let n = prefixes.len() - 1;
        lemma_indent_bar(p);
        let head = indent(p);
        let cell: Seq<u8> = if prefixes.last() {
            seq![0x20u8, 0x20, 0x20, 0x20]
        } else {
            seq![0xE2u8, 0x94, 0x82, 0x20, 0x20, 0x20]
        };
        assert(indent(prefixes) == head + cell);
        if indent(prefixes).contains(0xE2u8) {
            let j = choose|j: int| 0 <= j < indent(prefixes).len() && indent(prefixes)[j] == 0xE2u8;
            if j < head.len() {
                assert(head[j] == 0xE2u8);
                let k = choose|k: int| 0 <= k < p.len() && !p[k];
                assert(prefixes[k] == p[k]);
            } else {
                assert(cell[j - head.len()] == 0xE2u8);
                assert(!prefixes[n]);
            }
        }
        if exists|k: int| 0 <= k < prefixes.len() && !prefixes[k] {
            let k = choose|k: int| 0 <= k < prefixes.len() && !prefixes[k];
            if k < n {
                assert(p[k] == prefixes[k]);
                let j = choose|j: int| 0 <= j < head.len() && head[j] == 0xE2u8;
                assert(indent(prefixes)[j] == 0xE2u8);
            } else {
                assert(indent(prefixes)[head.len() as int] == 0xE2u8);
            }
        }
    }
}

/// Each enclosing directory adds one column to the indentation, after the columns of the
/// directories above it: four blanks when it was the last entry of its parent, else a
/// vertical bar ("│", bytes E2 94 82) and three blanks.
pub proof fn lemma_indent_columns(prefixes: Seq<bool>, is_last: bool)
    ensures
        indent(prefixes.push(is_last)) == indent(prefixes) + if is_last {
            seq![0x20u8, 0x20, 0x20, 0x20]
        } else {
            seq![0xE2u8, 0x94, 0x82, 0x20, 0x20, 0x20]
        },
{
    assert(prefixes.push(is_last).drop_last() =~= prefixes);
}

/// The branch drawn before an entry: a corner for the last entry of a directory, a tee
/// for the others.
pub open spec fn branch(is_last: bool) -> Seq<u8> {
    if is_last {
        seq![0xE2u8, 0x94, 0x94, 0xE2, 0x94, 0x80, 0xE2, 0x94, 0x80, 0x20]
    } else {
        seq![0xE2u8, 0x94, 0x9C, 0xE2, 0x94, 0x80, 0xE2, 0x94, 0x80, 0x20]
    }
}

/// The tree listing of the entries `es` under the indentation `prefixes`: one line per
/// entry, each directory followed by the listing of its own entries; directories more than
/// `fuel` levels down are not listed.
pub open spec fn listing<F, D>(arena: Seq<Option<VfsNode<F, D>>>, es: Seq<(Seq<u8>, VfsNodeId)>, prefixes: Seq<bool>, fuel: nat) -> Seq<u8>
    decreases fuel, es.len(),
{
    if es.len() == 0 {
        Seq::empty()
    } else {
        let is_last = es.len() == 1;
        let line = indent(prefixes) + branch(is_last) + seq![0x20u8] + es[0].0 + seq![0x0Au8];
        let sub = match node_at(arena, es[0].1) {
            Some(VfsNode::Directory(d)) => if fuel == 0 {
                Seq::empty()
            } else {
                listing(arena, d.view_entries(), prefixes.push(is_last), (fuel - 1) as nat)
            },
            _ => Seq::empty(),
        };
        line + sub + listing(arena, es.drop_first(), prefixes, fuel)
    }
}

/// Every entry that the listing of `es` visits names a node.
pub open spec fn listing_defined<F, D>(arena: Seq<Option<VfsNode<F, D>>>, es: Seq<(Seq<u8>, VfsNodeId)>, fuel: nat) -> bool
    decreases fuel, es.len(),
{
    if es.len() == 0 {
        true
    } else {
        &&& node_at(arena, es[0].1) is Some
        &&& match node_at(arena, es[0].1) {
            Some(VfsNode::Directory(d)) => fuel > 0 ==> listing_defined(arena, d.view_entries(), (fuel - 1) as nat),
            _ => true,
        }
        &&& listing_defined(arena, es.drop_first(), fuel)
    }
}

/// Appends the indentation for `prefixes` to `out`.
fn push_indent(prefixes: &Vec<bool>, out: &mut Vec<u8>)
    ensures
        final(out)@ == old(out)@ + indent(prefixes@),
{
    let mut i: usize = 0;
    let ghost out0 = out@;
    proof {
        assert(prefixes@.take(0) =~= Seq::<bool>::empty());
        assert(out@ =~= out0 + indent(prefixes@.take(0)));
    }
    while i < prefixes.len()
        invariant
            i <= prefixes@.len(),
            out@ == out0 + indent(prefixes@.take(i as int)),
        decreases prefixes@.len() - i,
    {
        proof {
            assert(prefixes@.take(i + 1).drop_last() =~= prefixes@.take(i as int));
            assert(prefixes@.take(i + 1).last() == prefixes@[i as int]);
        }
        if prefixes[i] {
            out.push(0x20);
            out.push(0x20);
            out.push(0x20);
            out.push(0x20);
        } else {
            out.push(0xE2);
            out.push(0x94);
            out.push(0x82);
            out.push(0x20);
            out.push(0x20);
            out.push(0x20);
        }
        proof {
            assert(out@ =~= out0 + indent(prefixes@.take(i + 1)));
        }
        i = i + 1;
    }
    proof {
        assert(prefixes@.take(prefixes@.len() as int) =~= prefixes@);
    }
}

/// Appends the branch drawn before an entry to `out`.
fn push_branch(is_last: bool, out: &mut Vec<u8>)
    ensures
        final(out)@ == old(out)@ + branch(is_last),
{
    let ghost out0 = out@;
    out.push(0xE2);
    out.push(0x94);
    if is_last {
        out.push(0x94);
    } else {
        out.push(0x9C);
    }
    out.push(0xE2);
    out.push(0x94);
    out.push(0x80);
    out.push(0xE2);
    out.push(0x94);
    out.push(0x80);
    out.push(0x20);
    proof {
        assert(out@ =~= out0 + branch(is_last));
    }
}

/// An entry inserted under a name that a directory did not have is what a lookup of that
/// name then finds.
pub proof fn lemma_lookup_after_insert(es: Seq<(Seq<u8>, VfsNodeId)>, pos: int, name: Seq<u8>, id: VfsNodeId)
    requires
        0 <= pos <= es.len(),
        lookup(es, name) is None,
    ensures
        lookup(es.insert(pos, (name, id)), name) == Some(id),
    decreases es.len(),
{
    if pos > 0 {
        assert(es.insert(pos, (name, id)).drop_first() =~= es.drop_first().insert(pos - 1, (name, id)));
        lemma_lookup_after_insert(es.drop_first(), pos - 1, name, id);
    }
}

/// Lookups of other names are not affected by inserting an entry.
pub proof fn lemma_lookup_other_after_insert(es: Seq<(Seq<u8>, VfsNodeId)>, pos: int, name: Seq<u8>, id: VfsNodeId, other: Seq<u8>)
    requires
        0 <= pos <= es.len(),
        other != name,
    ensures
        lookup(es.insert(pos, (name, id)), other) == lookup(es, other),
    decreases es.len(),
{
    if pos > 0 {
        assert(es.insert(pos, (name, id)).drop_first() =~= es.drop_first().insert(pos - 1, (name, id)));
        lemma_lookup_other_after_insert(es.drop_first(), pos - 1, name, id, other);
    } else {
        assert(es.insert(0, (name, id)).drop_first() =~= es);
    }
}

/// After the entries of a name are dropped, a lookup of that name finds nothing.
pub proof fn lemma_lookup_after_remove(es: Seq<(Seq<u8>, VfsNodeId)>, name: Seq<u8>)
    ensures
        lookup(without(es, name), name) is None,
    decreases es.len(),
{
    if es.len() > 0 {
        lemma_lookup_after_remove(es.drop_last(), name);
        lemma_without_push(es.drop_last(), es.last(), name);
        assert(es.drop_last().push(es.last()) =~= es);
        if es.last().0 != name {
            lemma_lookup_push_other(without(es.drop_last(), name), es.last(), name);
        }
    }
}

proof fn lemma_lookup_push_other(es: Seq<(Seq<u8>, VfsNodeId)>, x: (Seq<u8>, VfsNodeId), name: Seq<u8>)
    requires
        lookup(es, name) is None,
        x.0 != name,
    ensures
        lookup(es.push(x), name) is None,
    decreases es.len(),
{
    if es.len() > 0 {
        assert(es.push(x)[0] == es[0]);
        assert(es[0].0 != name);
        assert(lookup(es.drop_first(), name) is None);
        assert(es.push(x).drop_first() =~= es.drop_first().push(x));
        lemma_lookup_push_other(es.drop_first(), x, name);
        assert(lookup(es.drop_first().push(x), name) is None);
        assert(lookup(es.push(x).drop_first(), name) is None);
    } else {
        assert(es.push(x)[0] == x);
        assert(es.push(x).drop_first() =~= Seq::<(Seq<u8>, VfsNodeId)>::empty());
    }
}

proof fn lemma_insert_pos_bounds(es: Seq<(Seq<u8>, VfsNodeId)>, name: Seq<u8>)
    ensures
        0 <= insert_pos(es, name) <= es.len(),
        forall|i: int| 0 <= i < insert_pos(es, name) ==> lex_lt((#[trigger] es[i]).0, name),
        insert_pos(es, name) < es.len() ==> !lex_lt(es[insert_pos(es, name)].0, name),
    decreases es.len(),
{
    if es.len() > 0 && lex_lt(es[0].0, name) {
        lemma_insert_pos_bounds(es.drop_first(), name);
        assert forall|i: int| 0 <= i < insert_pos(es, name) implies lex_lt((#[trigger] es[i]).0, name) by {
            if i > 0 {
                assert(es[i] == es.drop_first()[i - 1]);
            }
        }
    }
}

proof fn lemma_lookup_absent(es: Seq<(Seq<u8>, VfsNodeId)>, name: Seq<u8>, i: int)
    requires
        lookup(es, name) is None,
        0 <= i < es.len(),
    ensures
        es[i].0 != name,
    decreases es.len(),
{
    if i > 0 {
        lemma_lookup_absent(es.drop_first(), name, i - 1);
    }
}

/// Entering a name that a directory's entries do not hold inserts a new entry.
proof fn lemma_dir_insert_fresh(es: Seq<(Seq<u8>, VfsNodeId)>, name: Seq<u8>, id: VfsNodeId)
    requires
        lookup(es, name) is None,
    ensures
        dir_insert(es, name, id) == es.insert(insert_pos(es, name), (name, id)),
{
    lemma_insert_pos_bounds(es, name);
    let p = insert_pos(es, name);
    if p < es.len() {
        lemma_lookup_absent(es, name, p);
    }
}

/// A lookup of a name that sorts after the first `k` entries skips them.
proof fn lemma_lookup_skip(es: Seq<(Seq<u8>, VfsNodeId)>, name: Seq<u8>, k: int)
    requires
        0 <= k <= es.len(),
        forall|i: int| 0 <= i < k ==> (#[trigger] es[i]).0 != name,
    ensures
        lookup(es, name) == lookup(es.skip(k), name),
    decreases k,
{
    if k > 0 {
        assert(es.drop_first().skip(k - 1) =~= es.skip(k));
        assert forall|i: int| 0 <= i < k - 1 implies (#[trigger] es.drop_first()[i]).0 != name by {
            assert(es.drop_first()[i] == es[i + 1]);
        }
        lemma_lookup_skip(es.drop_first(), name, k - 1);
    } else {
        assert(es.skip(0) =~= es);
    }
}

/// Replacing the id of an entry does not change lookups of other names.
proof fn lemma_lookup_other_after_update(es: Seq<(Seq<u8>, VfsNodeId)>, p: int, id: VfsNodeId, other: Seq<u8>)
    requires
        0 <= p < es.len(),
        es[p].0 != other,
    ensures
        lookup(es.update(p, (es[p].0, id)), other) == lookup(es, other),
    decreases es.len(),
{
    if p > 0 {
        assert(es.update(p, (es[p].0, id)).drop_first() =~= es.drop_first().update(p - 1, (es[p].0, id)));
        lemma_lookup_other_after_update(es.drop_first(), p - 1, id, other);
    } else {
        assert(es.update(0, (es[0].0, id)).drop_first() =~= es.drop_first());
    }
}

/// After `name` is entered as `id`, a lookup of `name` finds `id`, lookups of other names
/// find what they found before, and entries in name order stay in name order.
pub proof fn lemma_dir_insert(es: Seq<(Seq<u8>, VfsNodeId)>, name: Seq<u8>, id: VfsNodeId, other: Seq<u8>)
    ensures
        lookup(dir_insert(es, name, id), name) == Some(id),
        other != name ==> lookup(dir_insert(es, name, id), other) == lookup(es, other),
        sorted_names(es) ==> sorted_names(dir_insert(es, name, id)),
{
    lemma_insert_pos_bounds(es, name);
    let p = insert_pos(es, name);
    let t = dir_insert(es, name, id);
    assert forall|i: int| 0 <= i < p implies (#[trigger] t[i]).0 != name by {
        lemma_lex_total(es[i].0, name);
    }
    lemma_lookup_skip(t, name, p);
    assert(t.skip(p)[0] == (name, id));
    if p < es.len() && es[p].0 == name {
        if other != name {
            lemma_lookup_other_after_update(es, p, id, other);
        }
        if sorted_names(es) {
            assert forall|i: int, j: int| 0 <= i < j < t.len() implies lex_lt((#[trigger] t[i]).0, (#[trigger] t[j]).0) by {
                assert(t[i].0 == es[i].0 && t[j].0 == es[j].0);
            }
        }
    } else {
        if other != name {
            lemma_lookup_other_after_insert(es, p, name, id, other);
        }
        if sorted_names(es) {
            if p < es.len() {
                lemma_lex_total(es[p].0, name);
            }
            assert forall|i: int, j: int| 0 <= i < j < t.len() implies lex_lt((#[trigger] t[i]).0, (#[trigger] t[j]).0) by {
                if j < p {
                    assert(t[i] == es[i] && t[j] == es[j]);
                } else if j == p {
                    assert(t[i] == es[i]);
                } else if i == p {
                    assert(t[j] == es[j - 1]);
                    if j - 1 > p {
                        lemma_lex_trans(name, es[p].0, es[j - 1].0);
                    }
                } else if i < p {
                    assert(t[i] == es[i] && t[j] == es[j - 1]);
                } else {
                    assert(t[i] == es[i - 1] && t[j] == es[j - 1]);
                }
            }
        }
    }
}

/// An entry added to a directory is what that directory's entry of the name then leads
/// to.
pub proof fn lemma_added_entry_found<F, D>(
    old: Seq<Option<VfsNode<F, D>>>,
    new: Seq<Option<VfsNode<F, D>>>,
    pid: VfsNodeId,
    name: Seq<u8>,
    id: VfsNodeId,
)
    requires
        added_entry(old, new, pid, name, id),
        add_child_outcome(old, pid, name) == Ok::<VfsNodeId, Error>(id),
        !is_here(name),
        !is_up(name),
    ensures
        step(new, pid, name) == Ok::<VfsNodeId, Error>(id),
{
    let d = node_at(old, pid)->Some_0->Directory_0;
    lemma_insert_pos_bounds(d.view_entries(), name);
    lemma_lookup_after_insert(d.view_entries(), insert_pos(d.view_entries(), name), name, id);
}

/// The tree of nodes.
pub struct Vfs<F, D> {
    pub arena: Vec<Option<VfsNode<F, D>>>,
    pub root: VfsNodeId,
}

impl<F, D> Vfs<F, D> {
    /// The node stored under `id`.
    pub open spec fn node(&self, id: VfsNodeId) -> Option<VfsNode<F, D>> {
        node_at(self.arena@, id)
    }

    /// A tree holding only an empty root directory.
    pub fn new() -> (r: Vfs<F, D>)
        ensures
            r.arena@.len() == 1,
            r.root == VfsNodeId(0),
            r.node(r.root) matches Some(VfsNode::Directory(d)) && d.parent is None && d.children@.len() == 0,
    {
        let mut arena: Vec<Option<VfsNode<F, D>>> = Vec::new();
        arena.push(Some(VfsNode::Directory(VfsDirectory { parent: None, children: Vec::new() })));
        Vfs { arena, root: VfsNodeId(0) }
    }

    /// The id of the root directory.
    pub fn get_root_node_id(&self) -> (r: VfsNodeId)
        ensures
            r == self.root,
    {
        self.root
    }

    /// The node stored under `id`, if any.
    pub fn get(&self, id: VfsNodeId) -> (r: Option<&VfsNode<F, D>>)
        ensures
            match self.node(id) {
                Some(n) => r == Some(&n),
                None => r is None,
            },
    {
        if id.0 < self.arena.len() {
            match &self.arena[id.0] {
                Some(n) => Some(n),
                None => None,
            }
        } else {
            None
        }
    }


    /// The last component of `path` and the directory it belongs to.
    pub fn split_leaf<'a>(&self, cwd: VfsNodeId, path: &'a [u8]) -> (r: Result<(&'a [u8], VfsNodeId), Error>)
        ensures
            match r {
                Ok((leaf, pid)) => split_leaf_spec(self.arena@, self.root, cwd, path@) == Ok::<(Seq<u8>, VfsNodeId), Error>((leaf@, pid)),
                Err(e) => split_leaf_spec(self.arena@, self.root, cwd, path@) == Err::<(Seq<u8>, VfsNodeId), Error>(e),
            },
    {
        let mut j = path.len();
        proof {
            assert(path@.take(path@.len() as int) =~= path@);
        }
        while j > 0 && path[j - 1] != SLASH
            invariant
                j <= path@.len(),
                last_slash(path@) == last_slash(path@.take(j as int)),
            decreases j,
        {
            proof {
                assert(path@.take(j as int).drop_last() =~= path@.take(j - 1));
            }
            j = j - 1;
        }
        proof {
            if j > 0 {
                assert(path@.take(j as int).last() == SLASH);
            } else {
                assert(path@.take(0) =~= Seq::<u8>::empty());
            }
        }
        let has_slash = j > 0;
        let leaf: &[u8] = if has_slash {
            &path[j..path.len()]
        } else {
            path
        };
        proof {
            if has_slash {
                assert(leaf@ =~= path@.skip(j as int));
            }
        }
        let here = leaf.len() == 0 || (leaf.len() == 1 && leaf[0] == DOT);
        let up = leaf.len() == 2 && leaf[0] == DOT && leaf[1] == DOT;
        proof {
            if leaf@.len() == 1 && leaf@[0] == DOT {
                assert(leaf@ =~= seq![DOT]);
            }
            if leaf@ == seq![DOT] {
                assert(leaf@.len() == 1);
            }
            if up {
                assert(leaf@ =~= seq![DOT, DOT]);
            }
            if leaf@ == seq![DOT, DOT] {
                assert(leaf@.len() == 2);
            }
        }
        if here || up {
            return Err(Error::InvalidValue);
        }
        if !has_slash {
            return Ok((leaf, cwd));
        }
        let parent: &[u8] = if j == 1 {
            &path[0..1]
        } else {
            &path[0..j - 1]
        };
        proof {
            if j == 1 {
                assert(parent@ =~= seq![SLASH]);
            } else {
                assert(parent@ =~= path@.take(j - 1));
            }
        }
        match self.resolve_path(cwd, parent) {
            Ok(pid) => Ok((leaf, pid)),
            Err(e) => Err(e),
        }
    }

    /// Adds `node` as entry `name` of the directory `pid` and returns its id; see
    /// `add_child_outcome` and `add_child_effect`.
    fn add_child(&mut self, pid: VfsNodeId, name: &[u8], node: VfsNode<F, D>) -> (r: Result<VfsNodeId, Error>)
        ensures
            r == add_child_outcome(old(self).arena@, pid, name@),
            add_child_effect(old(self).arena@, final(self).arena@, pid, name@, node),
            final(self).root == old(self).root,
    {
        let new_id = VfsNodeId(self.arena.len());
        match self.get(pid) {
            None => {
                return Err(Error::NoSuchFileOrDirectory);
            },
            Some(VfsNode::Directory(d)) => {
                if d.get(name).is_some() {
                    return Err(Error::AlreadyExists);
                }
            },
            Some(_) => {
                self.arena.push(Some(node));
                return Err(Error::NotADirectory);
            },
        }
        let ghost old_arena = self.arena@;
        self.arena.push(Some(node));
        let ghost pushed = self.arena@;
        match &mut self.arena[pid.0] {
            Some(VfsNode::Directory(d)) => {
                proof {
                    lemma_dir_insert_fresh(d.view_entries(), name@, new_id);
                }
                d.insert(name, new_id);
            },
            _ => {},
        }
        proof {
            assert(self.arena@.len() == pushed.len());
            assert forall|i: int| 0 <= i < old_arena.len() && i != pid.0 implies #[trigger] self.arena@[i] == old_arena[i] by {
                assert(self.arena@[i] == pushed[i]);
            }
        }
        Ok(new_id)
    }

    /// Creates the directory `path` (trailing slashes ignored) and returns its id.
    pub fn mkdir(&mut self, cwd: VfsNodeId, path: &[u8]) -> (r: Result<VfsNodeId, Error>)
        ensures
            final(self).root == old(self).root,
            mkdir_effect(old(self).arena@, final(self).arena@, old(self).root, cwd, path@, r),
    {
        if path.len() == 1 && path[0] == SLASH {
            proof {
                assert(path@ =~= seq![SLASH]);
            }
            return Err(Error::AlreadyExists);
        }
        proof {
            if path@ == seq![SLASH] {
                assert(path@.len() == 1);
            }
        }
        let trimmed = trim_end_slashes(path);
        let (name, pid) = match self.split_leaf(cwd, trimmed) {
            Ok(x) => x,
            Err(e) => {
                return Err(e);
            },
        };
        let nd = VfsDirectory { parent: Some(pid), children: Vec::new() };
        let ghost ndv = nd;
        self.add_child(pid, name, VfsNode::Directory(nd))
    }

    /// Adds the file `file` at `path` and returns its id.
    pub fn mount(&mut self, cwd: VfsNodeId, path: &[u8], file: F) -> (r: Result<VfsNodeId, Error>)
        ensures
            final(self).root == old(self).root,
            mount_effect(old(self).arena@, final(self).arena@, old(self).root, cwd, path@, file, r),
    {
        let (name, pid) = match self.split_leaf(cwd, path) {
            Ok(x) => x,
            Err(e) => {
                return Err(e);
            },
        };
        self.add_child(pid, name, VfsNode::File(file))
    }

    /// Adds the device `handle` at `path`.
    pub fn register_device(&mut self, cwd: VfsNodeId, path: &[u8], handle: D) -> (r: Result<(), Error>)
        ensures
            final(self).root == old(self).root,
            match split_leaf_spec(old(self).arena@, old(self).root, cwd, path@) {
                Err(e) => r == Err::<(), Error>(e) && final(self).arena@ == old(self).arena@,
                Ok((name, pid)) => {
                    &&& match add_child_outcome(old(self).arena@, pid, name) {
                        Ok(_) => r is Ok,
                        Err(e) => r == Err::<(), Error>(e),
                    }
                    &&& add_child_effect(old(self).arena@, final(self).arena@, pid, name, VfsNode::Device(handle))
                },
            },
    {
        let (name, pid) = match self.split_leaf(cwd, path) {
            Ok(x) => x,
            Err(e) => {
                return Err(e);
            },
        };
        match self.add_child(pid, name, VfsNode::Device(handle)) {
            Ok(_) => Ok(()),
            Err(e) => Err(e),
        }
    }


    /// Opens the file or device at `path`, creating a file holding `new_file` when there is
    /// none and `flags` asks for it; returns its id. Directories cannot be opened.
    pub fn open(&mut self, cwd: VfsNodeId, path: &[u8], flags: OpenOptions, new_file: F) -> (r: Result<VfsNodeId, Error>)
        ensures
            final(self).root == old(self).root,
            r == open_outcome(old(self).arena@, old(self).root, cwd, path@, flags.creates()),
            open_creates(old(self).arena@, old(self).root, cwd, path@, flags.creates()) ==> ({
                let (name, pid) = split_leaf_spec(old(self).arena@, old(self).root, cwd, path@)->Ok_0;
                &&& added_entry(old(self).arena@, final(self).arena@, pid, name, r->Ok_0)
                &&& final(self).arena@[r->Ok_0.0 as int] == Some(VfsNode::<F, D>::File(new_file))
            }),
            !open_creates(old(self).arena@, old(self).root, cwd, path@, flags.creates()) ==> final(self).arena@ == old(self).arena@,
    {
        let (name, pid) = match self.split_leaf(cwd, path) {
            Ok(x) => x,
            Err(e) => {
                return Err(e);
            },
        };
        match self.get(pid) {
            None => {
                return Err(Error::NoSuchFileOrDirectory);
            },
            Some(VfsNode::Directory(d)) => {
                match d.get(name) {
                    Some(fid) => {
                        return match self.get(fid) {
                            None => Err(Error::StaleId),
                            Some(VfsNode::Directory(_)) => Err(Error::NotAFile),
                            Some(_) => Ok(fid),
                        };
                    },
                    None => {},
                }
            },
            Some(_) => {
                return Err(Error::NotADirectory);
            },
        }
        if !flags.contains(OpenOptions::create()) {
            return Err(Error::NoSuchFileOrDirectory);
        }
        self.add_child(pid, name, VfsNode::File(new_file))
    }

    /// Removes the entry at `path` of directory `pid`, and the node `t` it names.
    fn detach(&mut self, pid: VfsNodeId, name: &[u8], t: VfsNodeId)
        requires
            t.0 < old(self).arena@.len(),
            node_at(old(self).arena@, pid) matches Some(VfsNode::Directory(_)),
        ensures
            final(self).root == old(self).root,
            removed_entry(old(self).arena@, final(self).arena@, pid, name@, t),
    {
        let ghost old_arena = self.arena@;
        match &mut self.arena[pid.0] {
            Some(VfsNode::Directory(d)) => {
                d.remove(name);
            },
            _ => {},
        }
        let ghost mid = self.arena@;
        self.arena.set(t.0, None);
        proof {
            assert forall|i: int| 0 <= i < old_arena.len() && i != pid.0 && i != t.0 implies #[trigger] self.arena@[i] == old_arena[i] by {
                assert(self.arena@[i] == mid[i]);
            }
            if t != pid {
                assert(self.arena@[pid.0 as int] == mid[pid.0 as int]);
            }
        }
    }

    /// Removes the file at `path`.
    pub fn unlink(&mut self, cwd: VfsNodeId, path: &[u8]) -> (r: Result<(), Error>)
        ensures
            final(self).root == old(self).root,
            match remove_outcome(old(self).arena@, old(self).root, cwd, path@, false) {
                Ok(t) => r is Ok && removed_entry(old(self).arena@, final(self).arena@,
                    split_leaf_spec(old(self).arena@, old(self).root, cwd, path@)->Ok_0.1,
                    split_leaf_spec(old(self).arena@, old(self).root, cwd, path@)->Ok_0.0, t),
                Err(e) => r == Err::<(), Error>(e) && final(self).arena@ == old(self).arena@,
            },
    {
        let (name, pid) = match self.split_leaf(cwd, path) {
            Ok(x) => x,
            Err(e) => {
                return Err(e);
            },
        };
        let t = match self.get(pid) {
            None => {
                return Err(Error::NoSuchFileOrDirectory);
            },
            Some(VfsNode::Directory(d)) => match d.get(name) {
                None => {
                    return Err(Error::NoSuchFileOrDirectory);
                },
                Some(t) => t,
            },
            Some(_) => {
                return Err(Error::NotADirectory);
            },
        };
        match self.get(t) {
            None => {
                return Err(Error::StaleId);
            },
            Some(VfsNode::File(_)) => {},
            Some(_) => {
                return Err(Error::NotAFile);
            },
        }
        self.detach(pid, name, t);
        Ok(())
    }

    /// Removes the empty directory at `path`; the root cannot be removed.
    pub fn rmdir(&mut self, cwd: VfsNodeId, path: &[u8]) -> (r: Result<(), Error>)
        ensures
            final(self).root == old(self).root,
            match remove_outcome(old(self).arena@, old(self).root, cwd, path@, true) {
                Ok(t) => r is Ok && removed_entry(old(self).arena@, final(self).arena@,
                    split_leaf_spec(old(self).arena@, old(self).root, cwd, path@)->Ok_0.1,
                    split_leaf_spec(old(self).arena@, old(self).root, cwd, path@)->Ok_0.0, t),
                Err(e) => r == Err::<(), Error>(e) && final(self).arena@ == old(self).arena@,
            },
    {
        let (name, pid) = match self.split_leaf(cwd, path) {
            Ok(x) => x,
            Err(e) => {
                return Err(e);
            },
        };
        let t = match self.get(pid) {
            None => {
                return Err(Error::NoSuchFileOrDirectory);
            },
            Some(VfsNode::Directory(d)) => match d.get(name) {
                None => {
                    return Err(Error::NoSuchFileOrDirectory);
                },
                Some(t) => t,
            },
            Some(_) => {
                return Err(Error::NotADirectory);
            },
        };
        if t == self.root {
            return Err(Error::InvalidValue);
        }
        match self.get(t) {
            None => {
                return Err(Error::StaleId);
            },
            Some(VfsNode::Directory(td)) => {
                if td.children.len() > 0 {
                    return Err(Error::DirectoryNotEmpty);
                }
            },
            Some(_) => {
                return Err(Error::NotADirectory);
            },
        }
        self.detach(pid, name, t);
        Ok(())
    }


    /// The tree listing of the directory `dir_id`, as the bytes of its lines; the depth is
    /// bounded by the number of nodes. `NoSuchFileOrDirectory` when there is no node
    /// `dir_id`, `NotADirectory` when it is not a directory.
    pub fn tree_lsdir(&self, dir_id: VfsNodeId) -> (r: Result<Vec<u8>, Error>)
        requires
            node_at(self.arena@, dir_id) matches Some(VfsNode::Directory(d)) ==> listing_defined(self.arena@, d.view_entries(), self.arena@.len()),
        ensures
            match node_at(self.arena@, dir_id) {
                None => r == Err::<Vec<u8>, Error>(Error::NoSuchFileOrDirectory),
                Some(VfsNode::Directory(d)) => r matches Ok(out) && out@ == listing(self.arena@, d.view_entries(), Seq::empty(), self.arena@.len()),
                Some(_) => r == Err::<Vec<u8>, Error>(Error::NotADirectory),
            },
    {
        match self.get(dir_id) {
            None => Err(Error::NoSuchFileOrDirectory),
            Some(VfsNode::Directory(d)) => {
                let mut out: Vec<u8> = Vec::new();
                let mut prefixes: Vec<bool> = Vec::new();
                proof {
                    assert(d.view_entries().skip(0) =~= d.view_entries());
                }
                self.list_entries(&d.children, 0, &mut prefixes, self.arena.len(), &mut out);
                proof {
                    assert(out@ =~= listing(self.arena@, d.view_entries(), Seq::empty(), self.arena@.len()));
                }
                Ok(out)
            },
            Some(_) => Err(Error::NotADirectory),
        }
    }

    /// Whether every entry that listing `dir_id` visits names a node (see `tree_lsdir`).
    pub fn tree_listable(&self, dir_id: VfsNodeId) -> (r: bool)
        ensures
            r == (node_at(self.arena@, dir_id) matches Some(VfsNode::Directory(d)) ==> listing_defined(self.arena@, d.view_entries(), self.arena@.len())),
    {
        match self.get(dir_id) {
            Some(VfsNode::Directory(d)) => {
                proof {
                    assert(d.view_entries().skip(0) =~= d.view_entries());
                }
                self.entries_defined(&d.children, 0, self.arena.len())
            },
            _ => true,
        }
    }

    fn entries_defined(&self, children: &Vec<(Vec<u8>, VfsNodeId)>, from: usize, fuel: usize) -> (r: bool)
        requires
            from <= children@.len(),
        ensures
            r == listing_defined(self.arena@, entries(children@).skip(from as int), fuel as nat),
        decreases fuel, children@.len() - from,
    {
        if from == children.len() {
            return true;
        }
        let ghost es = entries(children@).skip(from as int);
        proof {
            assert(es.drop_first() =~= entries(children@).skip(from + 1));
            assert(es[0] == (children@[from as int].0@, children@[from as int].1));
        }
        let id = children[from].1;
        let here = match self.get(id) {
            None => false,
            Some(VfsNode::Directory(sub)) => {
                if fuel > 0 {
                    proof {
                        assert(sub.view_entries().skip(0) =~= sub.view_entries());
                    }
                    self.entries_defined(&sub.children, 0, fuel - 1)
                } else {
                    true
                }
            },
            Some(_) => true,
        };
        if !here {
            return false;
        }
        self.entries_defined(children, from + 1, fuel)
    }

    fn list_entries(&self, children: &Vec<(Vec<u8>, VfsNodeId)>, from: usize, prefixes: &mut Vec<bool>, fuel: usize, out: &mut Vec<u8>)
        requires
            from <= children@.len(),
            listing_defined(self.arena@, entries(children@).skip(from as int), fuel as nat),
        ensures
            final(prefixes)@ == old(prefixes)@,
            final(out)@ == old(out)@ + listing(self.arena@, entries(children@).skip(from as int), old(prefixes)@, fuel as nat),
        decreases fuel, children@.len() - from,
    {
        let ghost es = entries(children@).skip(from as int);
        if from == children.len() {
            proof {
                assert(es.len() == 0);
                assert(out@ =~= out@ + Seq::<u8>::empty());
            }
            return;
        }
        proof {
            assert(es.drop_first() =~= entries(children@).skip(from + 1));
            assert(es[0] == (children@[from as int].0@, children@[from as int].1));
        }
        let ghost out0 = out@;
        let ghost pre = prefixes@;
        let is_last = from + 1 == children.len();
        push_indent(prefixes, out);
        push_branch(is_last, out);
        out.push(0x20);
        let name = &children[from].0;
        let mut k: usize = 0;
        let ghost before_name = out@;
        while k < name.len()
            invariant
                k <= name@.len(),
                out@ == before_name + name@.take(k as int),
            decreases name@.len() - k,
        {
            out.push(name[k]);
            proof {
                assert(name@.take(k + 1) =~= name@.take(k as int).push(name@[k as int]));
            }
            k = k + 1;
        }
        out.push(0x0A);
        proof {
            assert(name@.take(name@.len() as int) =~= name@);
            assert(out@ =~= out0 + (indent(pre) + branch(is_last) + seq![0x20u8] + es[0].0 + seq![0x0Au8]));
        }
        let ghost after_line = out@;
        let id = children[from].1;
        match self.get(id) {
            Some(VfsNode::Directory(sub)) => {
                if fuel > 0 {
                    prefixes.push(is_last);
                    proof {
                        assert(sub.view_entries().skip(0) =~= sub.view_entries());
                    }
                    self.list_entries(&sub.children, 0, prefixes, fuel - 1, out);
                    prefixes.pop();
                    proof {
                        assert(prefixes@ =~= pre);
                    }
                }
            },
            _ => {},
        }
        let ghost after_sub = out@;
        self.list_entries(children, from + 1, prefixes, fuel, out);
        proof {
            assert(out@ =~= out0 + listing(self.arena@, es, pre, fuel as nat));
        }
    }

    /// Where component `c` leads from `cur`.
    fn step(&self, cur: VfsNodeId, c: &[u8]) -> (r: Result<VfsNodeId, Error>)
        ensures
            r == step(self.arena@, cur, c@),
    {
        if c.len() == 0 || (c.len() == 1 && c[0] == DOT) {
            proof {
                if c.len() == 1 {
                    assert(c@ =~= seq![DOT]);
                }
            }
            return Ok(cur);
        }
        proof {
            if c@ == seq![DOT] {
                assert(c@.len() == 1 && c@[0] == DOT);
            }
        }
        let up = c.len() == 2 && c[0] == DOT && c[1] == DOT;
        proof {
            if up {
                assert(c@ =~= seq![DOT, DOT]);
            }
            if c@ == seq![DOT, DOT] {
                assert(c@.len() == 2 && c@[0] == DOT && c@[1] == DOT);
            }
        }
        match self.get(cur) {
            None => Err(Error::StaleId),
            Some(VfsNode::Directory(d)) => {
                if up {
                    match d.parent {
                        Some(p) => Ok(p),
                        None => Ok(cur),
                    }
                } else {
                    match d.get(c) {
                        Some(id) => Ok(id),
                        None => Err(Error::NoSuchFileOrDirectory),
                    }
                }
            },
            Some(_) => Err(Error::NotADirectory),
        }
    }

    /// The node at `path` from the directory `cwd`; absolute paths start at the root.
    pub fn resolve_path(&self, cwd: VfsNodeId, path: &[u8]) -> (r: Result<VfsNodeId, Error>)
        ensures
            r == resolve(self.arena@, self.root, cwd, path@),
    {
        match self.get(cwd) {
            Some(VfsNode::Directory(_)) => {},
            _ => {
                return Err(Error::NotADirectory);
            },
        }
        let mut current = if path.len() > 0 && path[0] == SLASH {
            self.root
        } else {
            cwd
        };
        let ghost goal = resolve(self.arena@, self.root, cwd, path@);
        let mut start: usize = 0;
        proof {
            assert(path@.skip(0) =~= path@);
        }
        loop
            invariant
                start <= path@.len(),
                goal == resolve(self.arena@, self.root, cwd, path@),
                goal == walk(self.arena@, current, path@.skip(start as int)),
            decreases path@.len() - start,
        {
            let ghost rest = path@.skip(start as int);
            let mut end = start;
            while end < path.len() && path[end] != SLASH
                invariant
                    start <= end <= path@.len(),
                    rest == path@.skip(start as int),
                    forall|k: int| start <= k < end ==> path@[k] != SLASH,
                decreases path@.len() - end,
            {
                end = end + 1;
            }
            proof {
                lemma_first_slash(rest);
                let i = (end - start) as int;
                assert forall|k: int| 0 <= k < i implies rest[k] != SLASH by {
                    assert(rest[k] == path@[start + k]);
                }
                if first_slash(rest) < i {
                    assert(rest[first_slash(rest)] == path@[start + first_slash(rest)]);
                }
                if end < path@.len() {
                    assert(rest[i] == SLASH);
                }
                assert(first_slash(rest) == i);
                assert(path@.subrange(start as int, end as int) =~= rest.take(i));
                if end < path@.len() {
                    assert(rest.skip(i + 1) =~= path@.skip(end + 1));
                } else {
                    assert(rest.take(i) =~= rest);
                }
            }
            let r = self.step(current, &path[start..end]);
            match r {
                Ok(n) => {
                    current = n;
                },
                Err(e) => {
                    return Err(e);
                },
            }
            if end == path.len() {
                return Ok(current);
            }
            start = end + 1;
        }
    }
}

} // verus!
