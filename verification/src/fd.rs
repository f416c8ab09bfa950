//! File-descriptor tables.
use vstd::prelude::*;
use std::collections::BTreeMap;
use vstd::std_specs::btree::key_obeys_cmp_spec;

use crate::fs::SeekFrom;
use crate::io::{Error, IoInterface};
use crate::scheduler::sched::Scheduler;

verus! {

/// A file descriptor number.
pub type FileDescriptor = i32;

pub const STDIN_FILENO: FileDescriptor = 0;
pub const STDOUT_FILENO: FileDescriptor = 1;
pub const STDERR_FILENO: FileDescriptor = 2;

broadcast use {vstd::std_specs::btree::group_btree_axioms, vstd::laws_cmp::group_laws_cmp};

/// The open objects of a task, keyed by descriptor.
pub struct FdTable<T> {
    map: BTreeMap<FileDescriptor, T>,
}

impl<T> FdTable<T> {
    /// The objects of the table by descriptor.
    pub closed spec fn objects(&self) -> Map<FileDescriptor, T> {
        self.map@
    }

    /// The table's map is ordered by the integer order of descriptors, so each descriptor
    /// names one object.
    pub closed spec fn wf(&self) -> bool {
        key_obeys_cmp_spec::<FileDescriptor>()
    }

    /// The descriptors of the table and the object of each.
    pub open spec fn view(&self) -> Map<int, T> {
        Map::new(
            |fd: int| i32::MIN <= fd <= i32::MAX && self.objects().contains_key(fd as i32),
            |fd: int| self.objects()[fd as i32],
        )
    }

    /// An empty table.
    pub fn new() -> (r: Self)
        ensures
            r.wf(),
            r.view() == Map::<int, T>::empty(),
    {
        let r = FdTable { map: BTreeMap::new() };
        assert(r.view() =~= Map::<int, T>::empty());
        r
    }

    /// `fd` is open.
    pub fn contains_key(&self, fd: FileDescriptor) -> (r: bool)
        requires
            self.wf(),
        ensures
            r == self.view().contains_key(fd as int),
    {
        self.map.contains_key(&fd)
    }

    /// The object of `fd`, or `NoSuchFileOrDirectory` when it is not open.
    pub fn get(&self, fd: FileDescriptor) -> (r: Result<&T, Error>)
        requires
            self.wf(),
        ensures
            match r {
                Ok(h) => self.view().contains_key(fd as int) && *h == self.view()[fd as int],
                Err(e) => !self.view().contains_key(fd as int) && e == Error::NoSuchFileOrDirectory,
            },
    {
        match self.map.get(&fd) {
            Some(h) => Ok(h),
            None => Err(Error::NoSuchFileOrDirectory),
        }
    }

    /// Opens `obj` under the lowest free descriptor below `i32::MAX`; `TooManyOpenFiles` when
    /// every one is taken.
    pub fn add(&mut self, obj: T) -> (r: Result<FileDescriptor, Error>)
        requires
            old(self).wf(),
        ensures
            final(self).wf(),
            match r {
                Ok(fd) => {
                    &&& 0 <= fd < i32::MAX
                    &&& !old(self).view().contains_key(fd as int)
                    &&& forall|j: int| 0 <= j < fd ==> old(self).view().contains_key(j)
                    &&& final(self).view() == old(self).view().insert(fd as int, obj)
                },
                Err(e) => {
                    &&& e == Error::TooManyOpenFiles
                    &&& forall|j: int| 0 <= j < i32::MAX ==> old(self).view().contains_key(j)
                    &&& final(self).view() == old(self).view()
                },
            },
    {
        let mut fd: FileDescriptor = 0;
        while fd < i32::MAX
            invariant
                0 <= fd <= i32::MAX,
                self.wf(),
                *self == *old(self),
                forall|j: int| 0 <= j < fd ==> self.view().contains_key(j),
            decreases i32::MAX - fd,
        {
            if !self.map.contains_key(&fd) {
                self.map.insert(fd, obj);
                proof {
                    assert(self.view() =~= old(self).view().insert(fd as int, obj));
                }
                return Ok(fd);
            }
            fd = fd + 1;
        }
        Err(Error::TooManyOpenFiles)
    }

    /// Closes `fd` and hands back its object; `BadFileDescriptor` when it is not open.
    pub fn remove(&mut self, fd: FileDescriptor) -> (r: Result<T, Error>)
        requires
            old(self).wf(),
        ensures
            final(self).wf(),
            match r {
                Ok(h) => {
                    &&& old(self).view().contains_key(fd as int)
                    &&& h == old(self).view()[fd as int]
                    &&& final(self).view() == old(self).view().remove(fd as int)
                },
                Err(e) => {
                    &&& e == Error::BadFileDescriptor
                    &&& !old(self).view().contains_key(fd as int)
                    &&& final(self).view() == old(self).view()
                },
            },
    {
        match self.map.remove(&fd) {
            Some(h) => {
                proof {
                    assert(self.view() =~= old(self).view().remove(fd as int));
                }
                Ok(h)
            },
            None => {
                proof {
                    assert(self.view() =~= old(self).view());
                }
                Err(Error::BadFileDescriptor)
            },
        }
    }
}

/// An object opened under a free descriptor is what that descriptor then names, and closing
/// the descriptor hands it back and leaves the table as it was before.
pub proof fn lemma_add_then_remove<T>(m: Map<int, T>, fd: int, obj: T)
    requires
        !m.contains_key(fd),
    ensures
        m.insert(fd, obj).contains_key(fd),
        m.insert(fd, obj)[fd] == obj,
        m.insert(fd, obj).remove(fd) == m,
{
    assert(m.insert(fd, obj).remove(fd) =~= m);
}

/// The object that `fd` names in the running task.
pub open spec fn fd_object<H>(sched: &Scheduler<H>, fd: FileDescriptor) -> Option<H> {
    let m = sched.task(sched.current_id()).fd_map.view();
    if m.contains_key(fd as int) {
        Some(m[fd as int])
    } else {
        None
    }
}

/// Writes `buf` to the object that `fd` names in the running task; an empty buffer is not
/// passed on and gives 0.
pub fn write<H: IoInterface>(sched: &Scheduler<H>, fd: FileDescriptor, buf: &[u8]) -> (r: Result<usize, Error>)
    requires
        sched.wf(),
        sched.task(sched.current_id()).fd_map.wf(),
    ensures
        fd_object(sched, fd) is None ==> r == Err::<usize, Error>(Error::NoSuchFileOrDirectory),
        fd_object(sched, fd) is Some && buf@.len() == 0 ==> r == Ok::<usize, Error>(0),
{
    let obj = match sched.get_io_interface(fd) {
        Ok(o) => o,
        Err(e) => {
            return Err(e);
        },
    };
    if buf.len() == 0 {
        return Ok(0);
    }
    obj.write(buf)
}

/// Reads into `buf` from the object that `fd` names in the running task; an empty buffer
/// is not passed on and gives 0.
pub fn read<H: IoInterface>(sched: &Scheduler<H>, fd: FileDescriptor, buf: &mut [u8]) -> (r: Result<usize, Error>)
    requires
        sched.wf(),
        sched.task(sched.current_id()).fd_map.wf(),
    ensures
        fd_object(sched, fd) is None ==> r == Err::<usize, Error>(Error::NoSuchFileOrDirectory),
        fd_object(sched, fd) is Some && old(buf)@.len() == 0 ==> r == Ok::<usize, Error>(0),
{
    let obj = match sched.get_io_interface(fd) {
        Ok(o) => o,
        Err(e) => {
            return Err(e);
        },
    };
    if buf.len() == 0 {
        return Ok(0);
    }
    obj.read(buf)
}

/// Moves the position of the object that `fd` names in the running task.
pub fn seek<H: IoInterface>(sched: &Scheduler<H>, fd: FileDescriptor, offset: SeekFrom) -> (r: Result<usize, Error>)
    requires
        sched.wf(),
        sched.task(sched.current_id()).fd_map.wf(),
    ensures
        fd_object(sched, fd) is None ==> r == Err::<usize, Error>(Error::NoSuchFileOrDirectory),
{
    let obj = match sched.get_io_interface(fd) {
        Ok(o) => o,
        Err(e) => {
            return Err(e);
        },
    };
    obj.seek(offset)
}

} // verus!
