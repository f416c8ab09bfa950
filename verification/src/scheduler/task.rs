//! Task identities and priorities, and the ready queue ordered by priority.
use vstd::prelude::*;
use std::collections::VecDeque;
use vstd::std_specs::bits::{axiom_u64_leading_zeros, axiom_u64_trailing_zeros, u64_leading_zeros};

use crate::memory::paging::PhysicalAddress;
use crate::memory::vmspace::VmSpace;
use crate::fd::FdTable;
use crate::elf::loader::le_bytes;

verus! {

/// Size of a task's stack.
pub const STACK_SIZE: usize = 0x3000;
/// Size of a task's interrupt stack.
pub const INTERRUPT_STACK_SIZE: usize = 0x3000;
/// The number of priority levels.
pub const NUM_PRIORITIES: usize = 32;

/// Identifies a task.
#[derive(Debug, Clone, Copy, Eq, PartialEq, Ord, PartialOrd, Structural)]
pub struct TaskId(pub u64);

impl TaskId {
    pub fn new(id: u64) -> (r: Self)
        ensures
            r.0 == id,
    {
        TaskId(id)
    }

    /// The number of the task.
    pub fn into(self) -> (r: u64)
        ensures
            r == self.0,
    {
        self.0
    }
}

/// The priority of a task: a number below `NUM_PRIORITIES` (realtime is the highest).
#[derive(Debug, Clone, Copy, Eq, PartialEq, Ord, PartialOrd, Structural)]
pub struct TaskPriority(pub u8);

/// The highest priority.
pub const REALTIME_PRIORITY: u8 = 31;
/// A high priority.
pub const HIGH_PRIORITY: u8 = 24;
/// The default priority.
pub const NORMAL_PRIORITY: u8 = 16;
/// The lowest priority, that of the idle task.
pub const LOW_PRIORITY: u8 = 0;

impl TaskPriority {
    pub fn new(priority: u8) -> (r: Self)
        ensures
            r.0 == priority,
    {
        TaskPriority(priority)
    }

    /// The number of the priority.
    pub fn into(self) -> (r: u8)
        ensures
            r == self.0,
    {
        self.0
    }
}

/// The state of a task.
#[derive(Debug, Clone, Copy, Eq, PartialEq, Structural)]
pub enum TaskStatus {
    Invalid,
    Ready,
    Running,
    Blocked,
    Finished,
    Idle,
}

/// Bit `i` of `b` is set.
pub open spec fn bit64(b: u64, i: int) -> bool {
    (b >> (i as u64)) & 1u64 == 1u64
}

/// `p` is the highest priority whose queue is non-empty.
pub open spec fn highest_nonempty(queues: Seq<Seq<TaskId>>, p: int) -> bool {
    &&& 0 <= p < queues.len()
    &&& queues[p].len() > 0
    &&& forall|q: int| p < q < queues.len() ==> (#[trigger] queues[q]).len() == 0
}

/// Every queue is empty.
pub open spec fn all_empty(queues: Seq<Seq<TaskId>>) -> bool {
    forall|q: int| 0 <= q < queues.len() ==> (#[trigger] queues[q]).len() == 0
}

proof fn lemma_bit_ops(b: u64, p: u64, q: u64)
    requires
        p < 64,
        q < 64,
    ensures
        bit64(b | (1u64 << p), q as int) == (p == q || bit64(b, q as int)),
        bit64(b & !(1u64 << p), q as int) == (p != q && bit64(b, q as int)),
{
    assert(((b | (1u64 << p)) >> q) & 1u64 == 1u64 <==> (p == q || (b >> q) & 1u64 == 1u64)) by (bit_vector)
        requires p < 64, q < 64;
    assert(((b & !(1u64 << p)) >> q) & 1u64 == 1u64 <==> (p != q && (b >> q) & 1u64 == 1u64)) by (bit_vector)
        requires p < 64, q < 64;
}

/// The highest set bit of a non-zero word is `63 - leading_zeros`.
proof fn lemma_highest_bit(b: u64)
    requires
        b != 0,
    ensures
        u64_leading_zeros(b) < 64,
        bit64(b, 63 - u64_leading_zeros(b)),
        forall|q: int| 63 - u64_leading_zeros(b) < q < 64 ==> !#[trigger] bit64(b, q),
{
    axiom_u64_leading_zeros(b);
    let lz = u64_leading_zeros(b);
    let h = (63 - lz) as u64;
    assert((b >> h) & 1u64 != 0u64);
    assert(((b >> h) & 1u64 != 0u64) ==> ((b >> h) & 1u64 == 1u64)) by (bit_vector);
    assert forall|q: int| 63 - lz < q < 64 implies !#[trigger] bit64(b, q) by {
        let qq = q as u64;
        assert((b >> qq) & 1u64 == 0u64);
    }
}

proof fn lemma_zero_bits(b: u64)
    ensures
        (b == 0) == (forall|q: int| 0 <= q < 64 ==> !#[trigger] bit64(b, q)),
{
    assert forall|q: int| 0 <= q < 64 && b == 0 implies !#[trigger] bit64(b, q) by {
        let qq = q as u64;
        assert((0u64 >> qq) & 1u64 == 0u64) by (bit_vector);
    }
    if b != 0 {
        axiom_u64_trailing_zeros(b);
        let t = b.trailing_zeros();
        assert(bit64(b, t as int));
    }
}

/// Ready tasks in one first-in-first-out queue per priority, with a bitmap of the
/// non-empty queues.
pub struct PriorityTaskQueue {
    queues: Vec<VecDeque<TaskId>>,
    priority_bitmap: u64,
}

impl PriorityTaskQueue {
    /// The queue of each priority, front first.
    pub closed spec fn queues(&self) -> Seq<Seq<TaskId>> {
        Seq::new(self.queues@.len(), |p: int| self.queues@[p]@)
    }

    /// There is one queue per priority and the bitmap marks exactly the non-empty ones.
    pub closed spec fn wf(&self) -> bool {
        &&& self.queues@.len() == NUM_PRIORITIES
        &&& forall|p: int| 0 <= p < NUM_PRIORITIES ==> (bit64(self.priority_bitmap, p) <==> (#[trigger] self.queues@[p])@.len() > 0)
        &&& forall|p: int| NUM_PRIORITIES <= p < 64 ==> !#[trigger] bit64(self.priority_bitmap, p)
    }

    /// An empty queue for every priority.
    pub fn new() -> (r: PriorityTaskQueue)
        ensures
            r.wf(),
            r.queues().len() == NUM_PRIORITIES,
            all_empty(r.queues()),
    {
        let mut queues: Vec<VecDeque<TaskId>> = Vec::new();
        let mut i: usize = 0;
        while i < NUM_PRIORITIES
            invariant
                i <= NUM_PRIORITIES,
                queues@.len() == i,
                forall|p: int| 0 <= p < i ==> (#[trigger] queues@[p])@.len() == 0,
            decreases NUM_PRIORITIES - i,
        {
            queues.push(VecDeque::new());
            i = i + 1;
        }
        let r = PriorityTaskQueue { queues, priority_bitmap: 0 };
        proof {
            lemma_zero_bits(0);
        }
        r
    }

    /// Appends `task` to the queue of `priority`.
    pub fn push(&mut self, task: TaskId, priority: TaskPriority)
        requires
            old(self).wf(),
            priority.0 < NUM_PRIORITIES,
        ensures
            final(self).wf(),
            final(self).queues() == old(self).queues().update(
                priority.0 as int,
                old(self).queues()[priority.0 as int].push(task),
            ),
    {
        let p = priority.into() as usize;
        let ghost old_bitmap = self.priority_bitmap;
        self.priority_bitmap = self.priority_bitmap | (1u64 << (p as u64));
        self.queues[p].push_back(task);
        proof {
            assert forall|q: int| 0 <= q < 64 implies #[trigger] bit64(self.priority_bitmap, q) == (p == q || bit64(old_bitmap, q)) by {
                lemma_bit_ops(old_bitmap, p as u64, q as u64);
            }
            assert(self.queues() =~= old(self).queues().update(p as int, old(self).queues()[p as int].push(task)));
        }
    }

    /// Takes the front task of the queue at `queue_index`, clearing its bit when the queue
    /// becomes empty.
    fn pop_from_queue(&mut self, queue_index: usize) -> (r: Option<TaskId>)
        requires
            old(self).wf(),
            queue_index < NUM_PRIORITIES,
        ensures
            final(self).wf(),
            r == (if old(self).queues()[queue_index as int].len() > 0 {
                Some(old(self).queues()[queue_index as int][0])
            } else {
                None
            }),
            final(self).queues() == old(self).queues().update(
                queue_index as int,
                if old(self).queues()[queue_index as int].len() > 0 {
                    old(self).queues()[queue_index as int].drop_first()
                } else {
                    old(self).queues()[queue_index as int]
                },
            ),
    {
        let task = self.queues[queue_index].pop_front();
        let ghost old_bitmap = self.priority_bitmap;
        if self.queues[queue_index].len() == 0 {
            self.priority_bitmap = self.priority_bitmap & !(1u64 << (queue_index as u64));
            proof {
                assert forall|q: int| 0 <= q < 64 implies #[trigger] bit64(self.priority_bitmap, q) == (queue_index != q && bit64(old_bitmap, q)) by {
                    lemma_bit_ops(old_bitmap, queue_index as u64, q as u64);
                }
            }
        }
        proof {
            let nq = if old(self).queues()[queue_index as int].len() > 0 {
                old(self).queues()[queue_index as int].drop_first()
            } else {
                old(self).queues()[queue_index as int]
            };
            assert(self.queues() =~= old(self).queues().update(queue_index as int, nq));
        }
        task
    }

    /// Takes the front task of the highest-priority non-empty queue, provided that its
    /// priority is at least `priority`; a task of a lower priority stays queued.
    pub fn pop_with_priority(&mut self, priority: TaskPriority) -> (r: Option<TaskId>)
        requires
            old(self).wf(),
        ensures
            final(self).wf(),
            match r {
                Some(t) => exists|p: int| {
                    &&& #[trigger] highest_nonempty(old(self).queues(), p)
                    &&& p >= priority.0
                    &&& t == old(self).queues()[p][0]
                    &&& final(self).queues() == old(self).queues().update(p, old(self).queues()[p].drop_first())
                },
                None => {
                    &&& final(self).queues() == old(self).queues()
                    &&& forall|p: int| priority.0 <= p < old(self).queues().len() ==> (#[trigger] old(self).queues()[p]).len() == 0
                },
            },
    {
        proof {
            lemma_zero_bits(self.priority_bitmap);
        }
        if self.priority_bitmap == 0 {
            proof {
                assert forall|p: int| priority.0 <= p < old(self).queues().len() implies (#[trigger] old(self).queues()[p]).len() == 0 by {
                    assert(!bit64(self.priority_bitmap, p));
                }
            }
            return None;
        }
        let b = self.priority_bitmap;
        let lz = b.leading_zeros();
        proof {
            lemma_highest_bit(b);
        }
        let h = (63 - lz) as usize;
        proof {
            assert(h < NUM_PRIORITIES) by {
                if h >= NUM_PRIORITIES {
                    assert(!bit64(b, h as int));
                }
            }
            assert(highest_nonempty(old(self).queues(), h as int)) by {
                assert(self.queues@[h as int]@.len() > 0);
                assert forall|q: int| h < q < old(self).queues().len() implies (#[trigger] old(self).queues()[q]).len() == 0 by {
                    assert(!bit64(b, q));
                    assert(self.queues@[q]@.len() == 0);
                }
            }
        }
        if h >= priority.into() as usize {
            return self.pop_from_queue(h);
        }
        proof {
            assert forall|p: int| priority.0 <= p < old(self).queues().len() implies (#[trigger] old(self).queues()[p]).len() == 0 by {
                assert(!bit64(b, p));
                assert(self.queues@[p]@.len() == 0);
            }
        }
        None
    }

    /// Takes the front task of the highest-priority non-empty queue.
    pub fn pop(&mut self) -> (r: Option<TaskId>)
        requires
            old(self).wf(),
        ensures
            final(self).wf(),
            match r {
                Some(t) => exists|p: int| {
                    &&& #[trigger] highest_nonempty(old(self).queues(), p)
                    &&& t == old(self).queues()[p][0]
                    &&& final(self).queues() == old(self).queues().update(p, old(self).queues()[p].drop_first())
                },
                None => {
                    &&& final(self).queues() == old(self).queues()
                    &&& all_empty(old(self).queues())
                },
            },
    {
        let r = self.pop_with_priority(TaskPriority(0));
        r
    }
}

/// A well-formed queue has one queue for each of the `NUM_PRIORITIES` priorities.
pub proof fn lemma_queue_count(q: &PriorityTaskQueue)
    requires
        q.wf(),
    ensures
        q.queues().len() == NUM_PRIORITIES,
{
}

/// After a task is pushed at any priority, some queue holds a task, so a `pop` that follows
/// takes one; and a `pop_with_priority` bounded by the pushed priority does too.
pub proof fn lemma_push_then_pop(q: &PriorityTaskQueue, t: TaskId, p: int)
    requires
        q.wf(),
        0 <= p < NUM_PRIORITIES,
    ensures
        !all_empty(q.queues().update(p, q.queues()[p].push(t))),
        exists|h: int| h >= p && #[trigger] highest_nonempty(q.queues().update(p, q.queues()[p].push(t)), h),
{
    let qs = q.queues().update(p, q.queues()[p].push(t));
    assert(qs[p].len() > 0);
    lemma_highest_exists(qs, p);
}

/// Where queue `p` is non-empty, a highest non-empty queue exists, at `p` or above.
proof fn lemma_highest_exists(qs: Seq<Seq<TaskId>>, p: int)
    requires
        0 <= p < qs.len(),
        qs[p].len() > 0,
    ensures
        exists|h: int| h >= p && #[trigger] highest_nonempty(qs, h),
    decreases qs.len() - p,
{
    if forall|q: int| p < q < qs.len() ==> (#[trigger] qs[q]).len() == 0 {
        assert(highest_nonempty(qs, p));
    } else {
        let q = choose|q: int| p < q < qs.len() && (#[trigger] qs[q]).len() != 0;
        lemma_highest_exists(qs, q);
    }
}

/// The byte that fills a new task's stack outside its initial frame.
pub const STACK_POISON: u8 = 0xCD;
/// The size of the registers saved on a task's stack when it is switched out.
pub const STATE_SIZE: usize = 160;
/// The offset in the stack of the return address of a new task's entry function: just
/// below the top, which lies 16 bytes below the end of the stack.
pub const RETURN_SLOT: usize = 0x2FE8;
/// The offset in the stack of a new task's saved registers, just below the return address.
pub const STATE_SLOT: usize = 0x2F48;
/// The flags register of a new task: interrupts enabled, I/O privilege 1.
pub const INITIAL_RFLAGS: u64 = 0x1202;

/// The saved register `i` (in the order they lie in memory: gs, fs, r15 to r8, rdi, rsi,
/// rbp, rsp, rbx, rdx, rcx, rax, rflags, rip) of a new task whose stack starts at address
/// `base` and whose entry is `entry`: gs and rbp hold the stack's top, rsp the address of
/// the return slot, the flags `INITIAL_RFLAGS`, rip the entry; the others are zero.
pub open spec fn initial_register(base: u64, entry: u64, i: int) -> u64 {
    let top = (base + STACK_SIZE - 16) as u64;
    if i == 0 || i == 12 {
        top
    } else if i == 13 {
        (top - 8) as u64
    } else if i == 18 {
        INITIAL_RFLAGS
    } else if i == 19 {
        entry
    } else {
        0
    }
}

/// Byte `k` of the stack of a new task whose stack starts at address `base`, with entry
/// `entry` and return address `leave`: the saved registers at `STATE_SLOT`, the return
/// address at `RETURN_SLOT`, both least significant byte first, and `STACK_POISON`
/// elsewhere.
pub open spec fn initial_stack_byte(base: u64, entry: u64, leave: u64, k: int) -> u8 {
    if STATE_SLOT <= k < STATE_SLOT + STATE_SIZE {
        le_bytes(initial_register(base, entry, (k - STATE_SLOT) / 8))[(k - STATE_SLOT) % 8]
    } else if RETURN_SLOT <= k < RETURN_SLOT + 8 {
        le_bytes(leave)[k - RETURN_SLOT]
    } else {
        STACK_POISON
    }
}

/// Byte `b` of `v`, least significant first.
fn le_byte(v: u64, b: usize) -> (r: u8)
    requires
        b < 8,
    ensures
        r == le_bytes(v)[b as int],
{
    match b {
        0 => (v % 0x100) as u8,
        1 => ((v / 0x100) % 0x100) as u8,
        2 => ((v / 0x1_0000) % 0x100) as u8,
        3 => ((v / 0x100_0000) % 0x100) as u8,
        4 => ((v / 0x1_0000_0000) % 0x100) as u8,
        5 => ((v / 0x100_0000_0000) % 0x100) as u8,
        6 => ((v / 0x1_0000_0000_0000) % 0x100) as u8,
        _ => ((v / 0x100_0000_0000_0000) % 0x100) as u8,
    }
}

/// The memory of a task's stack and of its interrupt stack.
pub struct TaskStack {
    buffer: [u8; 0x3000],
    ist_buffer: [u8; 0x3000],
}

impl TaskStack {
    /// Both stacks are zero-filled.
    pub closed spec fn is_zeroed(&self) -> bool {
        &&& forall|i: int| 0 <= i < STACK_SIZE ==> #[trigger] self.buffer@[i] == 0
        &&& forall|i: int| 0 <= i < INTERRUPT_STACK_SIZE ==> #[trigger] self.ist_buffer@[i] == 0
    }

    /// The bytes of the stack.
    pub closed spec fn bytes(&self) -> Seq<u8> {
        self.buffer@
    }

    /// Byte `k` of the stack.
    pub fn byte_at(&self, k: usize) -> (r: u8)
        requires
            k < STACK_SIZE,
        ensures
            r == self.bytes()[k as int],
    {
        self.buffer[k]
    }

    /// Lays out the initial frame of a new task in the stack (see `initial_stack_byte`),
    /// for a stack that starts at address `base`.
    fn write_initial_frame(&mut self, base: u64, entry: u64, leave: u64)
        requires
            base + STACK_SIZE <= u64::MAX,
        ensures
            final(self).bytes().len() == STACK_SIZE,
            forall|k: int| 0 <= k < STACK_SIZE ==> #[trigger] final(self).bytes()[k] == initial_stack_byte(base, entry, leave, k),
    {
        let top = base + (STACK_SIZE as u64 - 16);
        let mut k: usize = 0;
        while k < STACK_SIZE
            invariant
                k <= STACK_SIZE,
                top == base + STACK_SIZE - 16,
                self.buffer@.len() == STACK_SIZE,
                forall|j: int| 0 <= j < k ==> #[trigger] self.buffer@[j] == initial_stack_byte(base, entry, leave, j),
            decreases STACK_SIZE - k,
        {
            let byte = if STATE_SLOT <= k && k < STATE_SLOT + STATE_SIZE {
                let i = (k - STATE_SLOT) / 8;
                let v: u64 = if i == 0 || i == 12 {
                    top
                } else if i == 13 {
                    top - 8
                } else if i == 18 {
                    INITIAL_RFLAGS
                } else if i == 19 {
                    entry
                } else {
                    0
                };
                le_byte(v, (k - STATE_SLOT) % 8)
            } else if RETURN_SLOT <= k && k < RETURN_SLOT + 8 {
                le_byte(leave, k - RETURN_SLOT)
            } else {
                STACK_POISON
            };
            self.buffer[k] = byte;
            k = k + 1;
        }
    }

    /// Zero-filled stacks.
    pub fn new() -> (r: TaskStack)
        ensures
            r.is_zeroed(),
    {
        TaskStack { buffer: [0u8; 0x3000], ist_buffer: [0u8; 0x3000] }
    }
}

/// A task: its identity, priority and state, the stack pointer saved when it was switched
/// out, its root page table, its open objects and its address space.
pub struct Task<H> {
    pub id: TaskId,
    pub priority: TaskPriority,
    pub status: TaskStatus,
    pub last_stack_ptr: usize,
    pub stack: Box<TaskStack>,
    /// Physical address of the top-level page table.
    pub root_page_table: PhysicalAddress,
    pub fd_map: FdTable<H>,
    pub vmspace: VmSpace,
}

impl<H> Task<H> {
    /// A task with standard input, output and error open on descriptors 0, 1 and 2.
    pub fn new(
        id: TaskId,
        status: TaskStatus,
        priority: TaskPriority,
        root_page_table: PhysicalAddress,
        stdin: H,
        stdout: H,
        stderr: H,
    ) -> (r: Self)
        ensures
            r.id == id,
            r.status == status,
            r.priority == priority,
            r.last_stack_ptr == 0,
            r.root_page_table == root_page_table,
            r.stack.is_zeroed(),
            r.fd_map.wf(),
            r.fd_map.view() == Map::<int, H>::empty().insert(0, stdin).insert(1, stdout).insert(2, stderr),
            r.vmspace@.len() == 0,
    {
        let mut fd_map = FdTable::new();
        let a = fd_map.add(stdin);
        let b = fd_map.add(stdout);
        let c = fd_map.add(stderr);
        proof {
            assert(a == Ok::<i32, crate::io::Error>(0)) by {
                if let Ok(fd) = a {
                    if fd > 0 {
                        assert(Map::<int, H>::empty().contains_key(0));
                    }
                } else {
                    assert(Map::<int, H>::empty().contains_key(0));
                }
            }
            assert(b == Ok::<i32, crate::io::Error>(1)) by {
                if let Ok(fd) = b {
                    if fd > 1 {
                        assert(Map::<int, H>::empty().insert(0, stdin).contains_key(1));
                    }
                } else {
                    assert(Map::<int, H>::empty().insert(0, stdin).contains_key(1));
                }
            }
            assert(c == Ok::<i32, crate::io::Error>(2)) by {
                if let Ok(fd) = c {
                    if fd > 2 {
                        assert(Map::<int, H>::empty().insert(0, stdin).insert(1, stdout).contains_key(2));
                    }
                } else {
                    assert(Map::<int, H>::empty().insert(0, stdin).insert(1, stdout).contains_key(2));
                }
            }
        }
        Task {
            id,
            status,
            priority,
            last_stack_ptr: 0,
            stack: Box::new(TaskStack::new()),
            root_page_table,
            fd_map,
            vmspace: VmSpace::new(),
        }
    }

    /// Prepares the stack of the task so that switching to it starts `entry_point`: the
    /// stack, whose first byte is at address `stack_base`, is filled as `initial_stack_byte`
    /// says (the saved registers, the return address `leave_task` of the entry function,
    /// poison elsewhere), and the saved stack pointer addresses the saved registers.
    pub fn create_stack_frame(&mut self, stack_base: u64, entry_point: u64, leave_task: u64)
        requires
            stack_base + STACK_SIZE <= usize::MAX,
            stack_base + STACK_SIZE <= u64::MAX,
        ensures
            final(self).stack.bytes().len() == STACK_SIZE,
            forall|k: int| 0 <= k < STACK_SIZE ==> #[trigger] final(self).stack.bytes()[k] == initial_stack_byte(
                stack_base,
                entry_point,
                leave_task,
                k,
            ),
            final(self).last_stack_ptr == stack_base + STATE_SLOT,
            final(self).id == old(self).id,
            final(self).priority == old(self).priority,
            final(self).status == old(self).status,
            final(self).root_page_table == old(self).root_page_table,
            final(self).fd_map == old(self).fd_map,
            final(self).vmspace == old(self).vmspace,
    {
        self.stack.write_initial_frame(stack_base, entry_point, leave_task);
        self.last_stack_ptr = (stack_base + STATE_SLOT as u64) as usize;
    }

    /// The idle task: lowest priority, status `Idle`, nothing open.
    pub fn new_idle(id: TaskId, root_page_table: PhysicalAddress) -> (r: Self)
        ensures
            r.id == id,
            r.status == TaskStatus::Idle,
            r.priority.0 == LOW_PRIORITY,
            r.last_stack_ptr == 0,
            r.root_page_table == root_page_table,
            r.stack.is_zeroed(),
            r.fd_map.wf(),
            r.fd_map.view() == Map::<int, H>::empty(),
            r.vmspace@.len() == 0,
    {
        Task {
            id,
            status: TaskStatus::Idle,
            priority: TaskPriority(LOW_PRIORITY),
            last_stack_ptr: 0,
            stack: Box::new(TaskStack::new()),
            root_page_table,
            fd_map: FdTable::new(),
            vmspace: VmSpace::new(),
        }
    }
}

} // verus!
