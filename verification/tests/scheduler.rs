use std::cell::RefCell;

use magicalos::fd;
use magicalos::fd::FdTable;
use magicalos::fs::SeekFrom;
use magicalos::io::{after_write, append_read, Error, IoInterface, Read, Write};
use magicalos::memory::paging::PhysicalAddress;
use magicalos::scheduler::sched::{Scheduler, Switch};
use magicalos::scheduler::task::{
    PriorityTaskQueue, Task, TaskId, TaskPriority, TaskStatus, INITIAL_RFLAGS, NORMAL_PRIORITY, RETURN_SLOT,
    STACK_POISON, STACK_SIZE, STATE_SLOT,
};

fn root() -> PhysicalAddress {
    PhysicalAddress(0x1000)
}

#[test]
fn task_id_and_priority_roundtrip() {
    assert_eq!(TaskId::new(7).into(), 7);
    assert_eq!(TaskPriority::new(3).into(), 3);
}

#[test]
fn priority_queue_pops_highest_priority_first_in_fifo_order() {
    let mut q = PriorityTaskQueue::new();
    assert_eq!(q.pop(), None);
    q.push(TaskId(1), TaskPriority(3));
    q.push(TaskId(2), TaskPriority(5));
    q.push(TaskId(3), TaskPriority(5));
    assert_eq!(q.pop(), Some(TaskId(2)));
    assert_eq!(q.pop(), Some(TaskId(3)));
    assert_eq!(q.pop(), Some(TaskId(1)));
    assert_eq!(q.pop(), None);
}

#[test]
fn priority_queue_pop_with_priority_finds_a_higher_task() {
    let mut q = PriorityTaskQueue::new();
    q.push(TaskId(1), TaskPriority(0));
    q.push(TaskId(2), TaskPriority(5));
    assert_eq!(q.pop_with_priority(TaskPriority(3)), Some(TaskId(2)));
    assert_eq!(q.pop_with_priority(TaskPriority(3)), None);
    assert_eq!(q.pop_with_priority(TaskPriority(0)), Some(TaskId(1)));
}

#[test]
fn priority_queue_pop_with_priority_respects_bound() {
    let mut q = PriorityTaskQueue::new();
    q.push(TaskId(1), TaskPriority(4));
    assert_eq!(q.pop_with_priority(TaskPriority(5)), None);
    assert_eq!(q.pop_with_priority(TaskPriority(4)), Some(TaskId(1)));
    assert_eq!(q.pop_with_priority(TaskPriority(0)), None);
}

#[test]
fn new_task_has_standard_descriptors() {
    let t: Task<u32> = Task::new(TaskId(4), TaskStatus::Ready, TaskPriority(1), root(), 10, 11, 12);
    assert_eq!(t.id, TaskId(4));
    assert_eq!(t.last_stack_ptr, 0);
    assert_eq!(*t.fd_map.get(0).unwrap(), 10);
    assert_eq!(*t.fd_map.get(1).unwrap(), 11);
    assert_eq!(*t.fd_map.get(2).unwrap(), 12);
    assert!(!t.fd_map.contains_key(3));
    let idle: Task<u32> = Task::new_idle(TaskId(0), root());
    assert_eq!(idle.status, TaskStatus::Idle);
    assert!(!idle.fd_map.contains_key(0));
}

#[test]
fn fd_table_reuses_lowest_free_descriptor() {
    let mut t: FdTable<&str> = FdTable::new();
    assert_eq!(t.add("a"), Ok(0));
    assert_eq!(t.add("b"), Ok(1));
    assert_eq!(t.add("c"), Ok(2));
    assert_eq!(t.remove(1), Ok("b"));
    assert!(!t.contains_key(1));
    assert_eq!(t.add("d"), Ok(1));
    assert_eq!(*t.get(1).unwrap(), "d");
    assert_eq!(t.get(9), Err(Error::NoSuchFileOrDirectory));
    assert_eq!(t.remove(9), Err(Error::BadFileDescriptor));
}

#[test]
fn error_numbers_roundtrip() {
    let all = [
        Error::NotImplemented,
        Error::NoSuchFileOrDirectory,
        Error::InvalidValue,
        Error::BadFileDescriptor,
        Error::NotADirectory,
        Error::NotAFile,
        Error::NoSuchDevice,
        Error::TooManyOpenFiles,
        Error::WriteAllEOF,
        Error::AlreadyExists,
        Error::StaleId,
        Error::DirectoryNotEmpty,
    ];
    for e in all {
        assert_eq!(Error::from_errno(e.errno()), Some(e));
    }
    assert_eq!(Error::NoSuchFileOrDirectory.errno(), 2);
    assert_eq!(Error::NotImplemented.errno(), 38);
    assert_eq!(Error::from_errno(1000), None);
}

#[test]
fn scheduler_runs_spawned_tasks_in_turn() {
    let mut s: Scheduler<u32> = Scheduler::new(root());
    assert_eq!(s.get_current_task_id(), TaskId(0));
    // nothing to run: the idle task stays
    assert_eq!(s.schedule(), None);

    let t1 = s.spawn(TaskPriority(NORMAL_PRIORITY), root(), 0, 1, 2).unwrap();
    assert_eq!(t1, TaskId(1));
    assert!(s.spawn(TaskPriority(32), root(), 0, 1, 2).is_err());

    assert_eq!(s.schedule(), Some(Switch { from: TaskId(0), to: TaskId(1) }));
    assert_eq!(s.get_current_task_id(), TaskId(1));
    // alone in its priority: keeps running
    assert_eq!(s.schedule(), None);

    let t2 = s.spawn(TaskPriority(NORMAL_PRIORITY), root(), 0, 1, 2).unwrap();
    assert_eq!(t2, TaskId(2));
    assert_eq!(s.schedule(), Some(Switch { from: TaskId(1), to: TaskId(2) }));
    assert_eq!(s.schedule(), Some(Switch { from: TaskId(2), to: TaskId(1) }));
}

#[test]
fn scheduler_lower_numbered_queue_does_not_preempt() {
    let mut s: Scheduler<u32> = Scheduler::new(root());
    s.spawn(TaskPriority(10), root(), 0, 1, 2).unwrap();
    assert_eq!(s.schedule(), Some(Switch { from: TaskId(0), to: TaskId(1) }));
    s.spawn(TaskPriority(5), root(), 0, 1, 2).unwrap();
    assert_eq!(s.schedule(), None);
    assert_eq!(s.get_current_task_id(), TaskId(1));
    s.spawn(TaskPriority(20), root(), 0, 1, 2).unwrap();
    assert_eq!(s.schedule(), Some(Switch { from: TaskId(1), to: TaskId(3) }));
}

#[test]
fn scheduler_block_wakeup_and_exit() {
    let mut s: Scheduler<u32> = Scheduler::new(root());
    s.spawn(TaskPriority(NORMAL_PRIORITY), root(), 0, 1, 2).unwrap();
    s.spawn(TaskPriority(NORMAL_PRIORITY), root(), 0, 1, 2).unwrap();
    assert_eq!(s.schedule(), Some(Switch { from: TaskId(0), to: TaskId(1) }));

    assert_eq!(s.block_current_task(), TaskId(1));
    assert_eq!(s.schedule(), Some(Switch { from: TaskId(1), to: TaskId(2) }));
    s.wakeup_task(TaskId(1));
    // waking an unknown task changes nothing
    s.wakeup_task_by_id(TaskId(99));

    let sw = s.exit();
    assert_eq!(sw, Switch { from: TaskId(2), to: TaskId(1) });
    assert_eq!(s.get_current_task_id(), TaskId(1));

    s.block_current_task();
    // nothing ready: back to idle
    assert_eq!(s.schedule(), Some(Switch { from: TaskId(1), to: TaskId(0) }));
}

#[test]
fn scheduler_root_page_table_and_io_interfaces() {
    let mut s: Scheduler<u32> = Scheduler::new(root());
    assert_eq!(s.get_root_page_table(), root());
    s.set_root_page_table(PhysicalAddress(0x5000));
    assert_eq!(s.get_root_page_table(), PhysicalAddress(0x5000));

    s.spawn(TaskPriority(1), root(), 40, 41, 42).unwrap();
    s.schedule();
    assert_eq!(*s.get_io_interface(1).unwrap(), 41);
    assert_eq!(s.add_io_interface(43), Ok(3));
    assert_eq!(s.remove_io_interface(0), Ok(40));
    assert_eq!(s.add_io_interface(44), Ok(0));
    assert!(s.get_io_interface(7).is_err());
}

/// An object that records what is written to it and hands out a fixed text.
struct Recorder {
    written: RefCell<Vec<u8>>,
}

impl IoInterface for Recorder {
    fn read(&self, buf: &mut [u8]) -> Result<usize, Error> {
        let n = buf.len().min(3);
        buf[..n].copy_from_slice(&b"abc"[..n]);
        Ok(n)
    }

    fn write(&self, buf: &[u8]) -> Result<usize, Error> {
        self.written.borrow_mut().extend_from_slice(buf);
        Ok(buf.len())
    }
}

fn recorder() -> Recorder {
    Recorder { written: RefCell::new(Vec::new()) }
}

#[test]
fn descriptor_calls_reach_the_open_object() {
    let mut s: Scheduler<Recorder> = Scheduler::new(root());
    s.spawn(TaskPriority(1), root(), recorder(), recorder(), recorder()).unwrap();
    s.schedule();

    assert_eq!(fd::write(&s, 1, b"hello"), Ok(5));
    assert_eq!(fd::write(&s, 1, b""), Ok(0));
    assert_eq!(fd::write(&s, 9, b"x"), Err(Error::NoSuchFileOrDirectory));
    assert_eq!(&*s.get_io_interface(1).unwrap().written.borrow(), b"hello");

    let mut buf = [0u8; 8];
    assert_eq!(fd::read(&s, 0, &mut buf), Ok(3));
    assert_eq!(&buf[..3], b"abc");
    let mut empty: [u8; 0] = [];
    assert_eq!(fd::read(&s, 0, &mut empty), Ok(0));
    assert_eq!(fd::seek(&s, 0, SeekFrom::Start(0)), Err(Error::NotImplemented));
    assert_eq!(fd::seek(&s, 5, SeekFrom::Start(0)), Err(Error::NoSuchFileOrDirectory));
}

/// A source that hands out its bytes four at a time.
struct Chunks {
    data: Vec<u8>,
    pos: usize,
}

impl Read for Chunks {
    fn read(&mut self, buf: &mut [u8]) -> Result<usize, Error> {
        let n = buf.len().min(4).min(self.data.len() - self.pos);
        buf[..n].copy_from_slice(&self.data[self.pos..self.pos + n]);
        self.pos += n;
        Ok(n)
    }
}

#[test]
fn read_to_end_collects_everything() {
    let data: Vec<u8> = (0u8..70).collect();
    let mut src = Chunks { data: data.clone(), pos: 0 };
    let mut out = vec![9u8];
    assert_eq!(src.read_to_end(&mut out), Ok(70));
    assert_eq!(out[0], 9);
    assert_eq!(&out[1..], &data[..]);
}

/// A sink that takes at most two bytes per call, and nothing once `limit` is reached.
struct Narrow {
    got: Vec<u8>,
    limit: usize,
}

impl Write for Narrow {
    fn write(&mut self, buf: &[u8]) -> Result<usize, Error> {
        let n = buf.len().min(2).min(self.limit - self.got.len());
        self.got.extend_from_slice(&buf[..n]);
        Ok(n)
    }
}

#[test]
fn write_all_repeats_and_reports_eof() {
    let mut w = Narrow { got: Vec::new(), limit: 100 };
    assert_eq!(w.write_all(b"hello"), Ok(()));
    assert_eq!(w.got, b"hello");
    let mut full = Narrow { got: Vec::new(), limit: 3 };
    assert_eq!(full.write_all(b"hello"), Err(Error::WriteAllEOF));
    assert_eq!(full.got, b"hel");
}

/// A source whose reads fail.
struct Broken;

impl Read for Broken {
    fn read(&mut self, _buf: &mut [u8]) -> Result<usize, Error> {
        Err(Error::NoSuchDevice)
    }
}

#[test]
fn read_to_end_passes_on_a_read_error() {
    let mut out = vec![1u8, 2];
    assert_eq!(Broken.read_to_end(&mut out), Err(Error::NoSuchDevice));
    assert_eq!(out, vec![1u8, 2]);
}

#[test]
fn append_read_takes_only_the_bytes_read() {
    let mut out = vec![7u8];
    append_read(&mut out, b"abcdef", 3);
    assert_eq!(out, b"\x07abc".to_vec());
    append_read(&mut out, b"xyz", 0);
    assert_eq!(out, b"\x07abc".to_vec());
}

#[test]
fn after_write_steps_past_what_was_written() {
    assert_eq!(after_write(b"hello", Ok(2)), Ok(&b"llo"[..]));
    assert_eq!(after_write(b"hello", Ok(5)), Ok(&b""[..]));
    assert_eq!(after_write(b"hello", Ok(0)), Err(Error::WriteAllEOF));
    assert_eq!(after_write(b"hello", Err(Error::BadFileDescriptor)), Err(Error::BadFileDescriptor));
}

#[test]
fn write_all_of_nothing_writes_nothing() {
    let mut full = Narrow { got: Vec::new(), limit: 0 };
    assert_eq!(full.write_all(b""), Ok(()));
    assert!(full.got.is_empty());
}

/// An object that implements none of the operations.
struct Inert;

impl IoInterface for Inert {}

#[test]
fn unimplemented_operations_fail() {
    let mut buf = [0u8; 4];
    assert_eq!(Inert.read(&mut buf), Err(Error::NotImplemented));
    assert_eq!(Inert.write(b"x"), Err(Error::NotImplemented));
    assert_eq!(Inert.seek(SeekFrom::Start(0)), Err(Error::NotImplemented));
    assert!(Inert.mmap(0).is_err());
}

#[test]
fn new_task_stack_frame_layout() {
    let mut t: Task<u32> = Task::new(TaskId(1), TaskStatus::Ready, TaskPriority(1), root(), 0, 1, 2);
    let base = 0x10_0000u64;
    t.create_stack_frame(base, 0xAAAA_0000, 0xBBBB_0000);
    assert_eq!(t.last_stack_ptr, (base as usize) + STATE_SLOT);
    let q = |off: usize| -> u64 {
        let mut b = [0u8; 8];
        for i in 0..8 {
            b[i] = t.stack.byte_at(off + i);
        }
        u64::from_le_bytes(b)
    };
    let top = base + STACK_SIZE as u64 - 16;
    assert_eq!(q(RETURN_SLOT), 0xBBBB_0000);
    assert_eq!(q(STATE_SLOT), top); // gs
    assert_eq!(q(STATE_SLOT + 8), 0); // fs
    assert_eq!(q(STATE_SLOT + 96), top); // rbp
    assert_eq!(q(STATE_SLOT + 104), top - 8); // rsp
    assert_eq!(q(STATE_SLOT + 144), INITIAL_RFLAGS);
    assert_eq!(q(STATE_SLOT + 152), 0xAAAA_0000); // rip
    assert_eq!(t.stack.byte_at(0), STACK_POISON);
    assert_eq!(t.stack.byte_at(STATE_SLOT - 1), STACK_POISON);
    assert_eq!(t.stack.byte_at(RETURN_SLOT + 8), STACK_POISON);
    assert_eq!(t.stack.byte_at(STACK_SIZE - 1), STACK_POISON);
}
