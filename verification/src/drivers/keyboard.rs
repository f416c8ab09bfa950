//! Keyboard input: the queue of raw key events that programs read, the line being typed
//! and the lines ready to be read, and the decoding of scancodes.
use vstd::prelude::*;
use std::collections::VecDeque;

use pc_keyboard::{layouts::Us104Key, DecodedKey, HandleControl, KeyEvent, KeyState, PS2Keyboard, ScancodeSet1};

use crate::elf::loader::le_bytes;
use crate::io::Error;
use crate::scheduler::task::TaskId;

verus! {

/// The size of a raw key event as programs read it.
pub const EVENT_SIZE: usize = 16;
/// The most events the queue holds; later ones are dropped.
pub const MAX_EVENTS: usize = 256;
/// The byte of the backspace character.
pub const BACKSPACE: char = '\x08';
/// The byte of the newline character.
pub const NEWLINE: char = '\n';

/// A key going down or up, as programs read it.
#[derive(Debug, Clone, Copy, PartialEq, Eq, Structural)]
pub struct RawKeyEvent {
    /// Nanoseconds since boot.
    pub timestamp_nanos: u64,
    /// The key code.
    pub code: u8,
    /// 1 for down, 0 for up.
    pub state: u8,
}

/// The bytes of an event as programs read it: the timestamp in little-endian order, the
/// code, the state and six zero bytes of padding.
pub open spec fn event_bytes(e: RawKeyEvent) -> Seq<u8> {
    le_bytes(e.timestamp_nanos) + seq![e.code, e.state, 0u8, 0u8, 0u8, 0u8, 0u8, 0u8]
}

/// The bytes of the events of `es`, one after the other.
pub open spec fn events_bytes(es: Seq<RawKeyEvent>) -> Seq<u8>
    decreases es.len(),
{
    if es.len() == 0 {
        Seq::empty()
    } else {
        events_bytes(es.drop_last()) + event_bytes(es.last())
    }
}

/// `ws` with `id` added at the back unless it is in it already.
pub open spec fn with_waiter(ws: Seq<TaskId>, id: TaskId) -> Seq<TaskId> {
    if ws.contains(id) {
        ws
    } else {
        ws.push(id)
    }
}

fn deque_contains(ws: &VecDeque<TaskId>, id: TaskId) -> (r: bool)
    ensures
        r == ws@.contains(id),
{
    let mut i: usize = 0;
    while i < ws.len()
        invariant
            i <= ws@.len(),
            forall|j: int| 0 <= j < i ==> ws@[j] != id,
        decreases ws@.len() - i,
    {
        if ws[i] == id {
            return true;
        }
        i = i + 1;
    }
    false
}

/// The key events that programs have not read yet, and the tasks waiting for one.
pub struct KeyboardEventQueue {
    pub events: VecDeque<RawKeyEvent>,
    pub waiters: VecDeque<TaskId>,
}

impl KeyboardEventQueue {
    /// An empty queue.
    pub fn new() -> (r: KeyboardEventQueue)
        ensures
            r.events@.len() == 0,
            r.waiters@.len() == 0,
    {
        KeyboardEventQueue { events: VecDeque::new(), waiters: VecDeque::new() }
    }

    /// Makes `task_id` wait for an event, unless it already does.
    pub fn add_waiter(&mut self, task_id: TaskId)
        ensures
            final(self).events@ == old(self).events@,
            final(self).waiters@ == with_waiter(old(self).waiters@, task_id),
    {
        if !deque_contains(&self.waiters, task_id) {
            self.waiters.push_back(task_id);
        }
    }

    /// Queues `event` unless the queue is full, and takes the first waiting task (to be
    /// woken), if any.
    pub fn record_event(&mut self, event: RawKeyEvent) -> (r: Option<TaskId>)
        ensures
            final(self).events@ == (if old(self).events@.len() < MAX_EVENTS {
                old(self).events@.push(event)
            } else {
                old(self).events@
            }),
            old(self).waiters@.len() == 0 ==> r is None && final(self).waiters@ == old(self).waiters@,
            old(self).waiters@.len() > 0 ==> r == Some(old(self).waiters@[0]) && final(self).waiters@
                == old(self).waiters@.drop_first(),
    {
        if self.events.len() < MAX_EVENTS {
            self.events.push_back(event);
        }
        self.waiters.pop_front()
    }

    /// Moves into `buf` as many whole events as fit, oldest first; returns the number of
    /// bytes written, 0 when there is no event. `InvalidValue` when `buf` cannot hold one
    /// event.
    pub fn read_events(&mut self, buf: &mut [u8]) -> (r: Result<usize, Error>)
        ensures
            final(self).waiters@ == old(self).waiters@,
            final(buf)@.len() == old(buf)@.len(),
            old(buf)@.len() < EVENT_SIZE ==> r == Err::<usize, Error>(Error::InvalidValue) && final(self).events@ == old(self).events@
                && final(buf)@ == old(buf)@,
            old(buf)@.len() >= EVENT_SIZE ==> {
                let n: int = if old(self).events@.len() < old(buf)@.len() as int / EVENT_SIZE as int {
                    old(self).events@.len() as int
                } else {
                    old(buf)@.len() as int / EVENT_SIZE as int
                };
                &&& r == Ok::<usize, Error>((n * EVENT_SIZE) as usize)
                &&& final(self).events@ == old(self).events@.skip(n)
                &&& final(buf)@.take(n * EVENT_SIZE) == events_bytes(old(self).events@.take(n))
                &&& final(buf)@.skip(n * EVENT_SIZE) == old(buf)@.skip(n * EVENT_SIZE)
            },
    {
        if buf.len() < EVENT_SIZE {
            return Err(Error::InvalidValue);
        }
        let ghost es = self.events@;
        let ghost b0 = buf@;
        let bl = buf.len();
        let capacity = buf.len() / EVENT_SIZE;
        let n = if self.events.len() < capacity {
            self.events.len()
        } else {
            capacity
        };
        let mut i: usize = 0;
        proof {
            assert(es.take(0) =~= Seq::<RawKeyEvent>::empty());
            assert(buf@.take(0) =~= Seq::<u8>::empty());
            assert(es.skip(0) =~= es);
        }
        while i < n
            invariant
                i <= n,
                n <= es.len(),
                n * EVENT_SIZE <= buf@.len(),
                buf@.len() == b0.len(),
                b0.len() == bl,
                self.events@ == es.skip(i as int),
                self.waiters@ == old(self).waiters@,
                buf@.take(i * EVENT_SIZE) == events_bytes(es.take(i as int)),
                buf@.skip(i * EVENT_SIZE) == b0.skip(i * EVENT_SIZE),
            decreases n - i,
        {
            let e = match self.events.pop_front() {
                Some(e) => e,
                None => {
                    return Ok(0);
                },
            };
            proof {
                assert(e == es[i as int]);
                assert(self.events@ =~= es.skip(i + 1));
                assert(i * EVENT_SIZE + EVENT_SIZE <= n * EVENT_SIZE) by (nonlinear_arith)
                    requires i < n;
            }
            let ghost before = buf@;
            let off = i * EVENT_SIZE;
            write_event(buf, off, e);
            proof {
                assert(es.take(i + 1).drop_last() =~= es.take(i as int));
                assert(buf@.take((i + 1) * EVENT_SIZE) =~= before.take(off as int) + event_bytes(e));
                assert(buf@.skip((i + 1) * EVENT_SIZE) =~= b0.skip((i + 1) * EVENT_SIZE)) by {
                    assert forall|k: int| 0 <= k < buf@.len() - (i + 1) * EVENT_SIZE implies #[trigger] buf@.skip((i + 1) * EVENT_SIZE)[k] == b0.skip((i + 1) * EVENT_SIZE)[k] by {
                        assert(buf@[(i + 1) * EVENT_SIZE + k] == before[(i + 1) * EVENT_SIZE + k]);
                        assert(before.skip(i * EVENT_SIZE)[EVENT_SIZE + k] == b0.skip(i * EVENT_SIZE)[EVENT_SIZE + k]);
                    }
                }
            }
            i = i + 1;
        }
        Ok(n * EVENT_SIZE)
    }
}

fn write_event(buf: &mut [u8], off: usize, e: RawKeyEvent)
    requires
        off + EVENT_SIZE <= old(buf)@.len(),
    ensures
        final(buf)@.len() == old(buf)@.len(),
        final(buf)@.subrange(off as int, off + EVENT_SIZE) == event_bytes(e),
        forall|k: int| 0 <= k < old(buf)@.len() && !(off <= k < off + EVENT_SIZE) ==> final(buf)@[k] == old(buf)@[k],
        final(buf)@.take(off as int) == old(buf)@.take(off as int),
{
    let v = e.timestamp_nanos;
    let bytes: [u8; 16] = [
        (v % 0x100) as u8,
        ((v / 0x100) % 0x100) as u8,
        ((v / 0x1_0000) % 0x100) as u8,
        ((v / 0x100_0000) % 0x100) as u8,
        ((v / 0x1_0000_0000) % 0x100) as u8,
        ((v / 0x100_0000_0000) % 0x100) as u8,
        ((v / 0x1_0000_0000_0000) % 0x100) as u8,
        ((v / 0x100_0000_0000_0000) % 0x100) as u8,
        e.code,
        e.state,
        0, 0, 0, 0, 0, 0,
    ];
    proof {
        assert(bytes@ =~= event_bytes(e));
    }
    let ghost b0 = buf@;
    let bl = buf.len();
    let mut k: usize = 0;
    while k < EVENT_SIZE
        invariant
            k <= EVENT_SIZE,
            b0.len() == bl,
            off + EVENT_SIZE <= b0.len(),
            buf@.len() == b0.len(),
            bytes@ == event_bytes(e),
            forall|j: int| 0 <= j < k ==> buf@[off + j] == bytes@[j],
            forall|j: int| 0 <= j < b0.len() && !(off <= j < off + k) ==> buf@[j] == b0[j],
        decreases EVENT_SIZE - k,
    {
        buf[off + k] = bytes[k];
        k = k + 1;
    }
    proof {
        assert(buf@.subrange(off as int, off + EVENT_SIZE) =~= event_bytes(e));
        assert(buf@.take(off as int) =~= b0.take(off as int));
    }
}

/// The UTF-8 encoding of `c`.
pub open spec fn utf8(c: char) -> Seq<u8> {
    let v = c as u32 as int;
    if v < 0x80 {
        seq![v as u8]
    } else if v < 0x800 {
        seq![(0xC0 + v / 64) as u8, (0x80 + v % 64) as u8]
    } else if v < 0x1_0000 {
        seq![(0xE0 + v / 4096) as u8, (0x80 + (v / 64) % 64) as u8, (0x80 + v % 64) as u8]
    } else {
        seq![
            (0xF0 + v / 262144) as u8,
            (0x80 + (v / 4096) % 64) as u8,
            (0x80 + (v / 64) % 64) as u8,
            (0x80 + v % 64) as u8,
        ]
    }
}

/// Appends the UTF-8 encoding of `c` to `out`.
pub fn push_utf8(out: &mut Vec<u8>, c: char)
    ensures
        final(out)@ == old(out)@ + utf8(c),
{
    let v = c as u32;
    let ghost o = out@;
    if v < 0x80 {
        out.push(v as u8);
    } else if v < 0x800 {
        out.push((0xC0 + v / 64) as u8);
        out.push((0x80 + v % 64) as u8);
    } else if v < 0x1_0000 {
        out.push((0xE0 + v / 4096) as u8);
        out.push((0x80 + (v / 64) % 64) as u8);
        out.push((0x80 + v % 64) as u8);
    } else {
        proof {
            assert(v <= 0x10FFFF);
        }
        out.push((0xF0 + v / 262144) as u8);
        out.push((0x80 + (v / 4096) % 64) as u8);
        out.push((0x80 + (v / 64) % 64) as u8);
        out.push((0x80 + v % 64) as u8);
    }
    proof {
        assert(out@ =~= o + utf8(c));
    }
}

/// What the terminal shows for a typed character.
#[derive(Debug, Clone, Copy, PartialEq, Eq, Structural)]
pub enum KeyAction {
    /// Erase the last character shown.
    Backspace,
    /// Start a new line; `wake` is the task to wake for the finished line.
    Newline { wake: Option<TaskId> },
    /// Show the character.
    Echo(char),
    /// Show nothing.
    Nothing,
}

/// What typing `c` does to the line state `s0`, leaving `s1` and showing `r`: a backspace
/// drops the last byte of the line (when there is one); a newline moves the line with its
/// newline to the ready lines and takes the first waiting task to wake; any other
/// character is added to the line in UTF-8 and shown.
pub open spec fn char_effect(s0: KeyboardState, s1: KeyboardState, c: char, r: KeyAction) -> bool {
    if c == BACKSPACE {
        &&& s1.ready_buffer@ == s0.ready_buffer@
        &&& s1.lines_ready == s0.lines_ready
        &&& s1.waiters@ == s0.waiters@
        &&& if s0.current_line@.len() > 0 {
            r == KeyAction::Backspace && s1.current_line@ == s0.current_line@.drop_last()
        } else {
            r == KeyAction::Nothing && s1.current_line@ == s0.current_line@
        }
    } else if c == NEWLINE {
        &&& s1.current_line@.len() == 0
        &&& s1.ready_buffer@ == s0.ready_buffer@ + s0.current_line@.push(0x0Au8)
        &&& s1.lines_ready == s0.lines_ready + 1
        &&& s0.waiters@.len() == 0 ==> r == KeyAction::Newline { wake: None } && s1.waiters@ == s0.waiters@
        &&& s0.waiters@.len() > 0 ==> r == KeyAction::Newline { wake: Some(s0.waiters@[0]) } && s1.waiters@
            == s0.waiters@.drop_first()
    } else {
        &&& r == KeyAction::Echo(c)
        &&& s1.current_line@ == s0.current_line@ + utf8(c)
        &&& s1.ready_buffer@ == s0.ready_buffer@
        &&& s1.lines_ready == s0.lines_ready
        &&& s1.waiters@ == s0.waiters@
    }
}

/// The line being typed and the finished lines that programs have not read yet.
pub struct KeyboardState {
    /// The number of finished lines not read yet.
    pub lines_ready: usize,
    /// The bytes of the finished lines not read yet.
    pub ready_buffer: VecDeque<u8>,
    /// The line being typed.
    pub current_line: Vec<u8>,
    /// The tasks waiting for a finished line.
    pub waiters: VecDeque<TaskId>,
}

impl KeyboardState {
    /// No line typed, none ready, no task waiting.
    pub fn new() -> (r: KeyboardState)
        ensures
            r.lines_ready == 0,
            r.ready_buffer@.len() == 0,
            r.current_line@.len() == 0,
            r.waiters@.len() == 0,
    {
        KeyboardState { lines_ready: 0, ready_buffer: VecDeque::new(), current_line: Vec::new(), waiters: VecDeque::new() }
    }

    /// Makes `task_id` wait for a finished line, unless it already does.
    pub fn add_waiter(&mut self, task_id: TaskId)
        ensures
            final(self).lines_ready == old(self).lines_ready,
            final(self).ready_buffer@ == old(self).ready_buffer@,
            final(self).current_line@ == old(self).current_line@,
            final(self).waiters@ == with_waiter(old(self).waiters@, task_id),
    {
        if !deque_contains(&self.waiters, task_id) {
            self.waiters.push_back(task_id);
        }
    }

    /// Takes a typed character into the line: a backspace drops the last byte of the line
    /// (when there is one); a newline ends the line, moves it with its newline to the ready
    /// lines and takes the first waiting task to wake; any other character is added in
    /// UTF-8.
    pub fn handle_char(&mut self, c: char) -> (r: KeyAction)
        requires
            c == NEWLINE ==> old(self).lines_ready < usize::MAX,
        ensures
            char_effect(*old(self), *final(self), c, r),
    {
        if c == BACKSPACE {
            if self.current_line.len() > 0 {
                self.current_line.pop();
                return KeyAction::Backspace;
            }
            return KeyAction::Nothing;
        }
        if c == NEWLINE {
            self.current_line.push(0x0A);
            let ghost line = self.current_line@;
            let ghost rb0 = self.ready_buffer@;
            let mut i: usize = 0;
            while i < self.current_line.len()
                invariant
                    i <= line.len(),
                    line == old(self).current_line@.push(0x0Au8),
                    rb0 == old(self).ready_buffer@,
                    self.lines_ready == old(self).lines_ready,
                    self.lines_ready < usize::MAX,
                    self.waiters@ == old(self).waiters@,
                    self.current_line@ == line,
                    self.ready_buffer@ == rb0 + line.take(i as int),
                decreases line.len() - i,
            {
                self.ready_buffer.push_back(self.current_line[i]);
                proof {
                    assert(line.take(i + 1) =~= line.take(i as int).push(line[i as int]));
                }
                i = i + 1;
            }
            proof {
                assert(line.take(line.len() as int) =~= line);
            }
            self.current_line = Vec::new();
            self.lines_ready = self.lines_ready + 1;
            let wake = self.waiters.pop_front();
            return KeyAction::Newline { wake };
        }
        push_utf8(&mut self.current_line, c);
        KeyAction::Echo(c)
    }
}

/// The reader of a program's key events.
#[derive(Debug)]
pub struct KeyboardEventDevice;

/// What a key event of key `code` going down (or up), at `timestamp_nanos`, that types
/// `decoded` does: the raw event is queued for programs unless the queue is full, the
/// first task waiting for an event is taken to be woken, and a typed character goes into
/// the line (see `char_effect`); without one the line state is left and nothing is shown.
pub open spec fn key_event_effect(
    q0: KeyboardEventQueue,
    q1: KeyboardEventQueue,
    s0: KeyboardState,
    s1: KeyboardState,
    timestamp_nanos: u64,
    code: u8,
    down: bool,
    decoded: Option<char>,
    r: (Option<TaskId>, KeyAction),
) -> bool {
    let ev = RawKeyEvent { timestamp_nanos, code, state: if down { 1u8 } else { 0u8 } };
    &&& q1.events@ == (if q0.events@.len() < MAX_EVENTS {
        q0.events@.push(ev)
    } else {
        q0.events@
    })
    &&& r.0 == (if q0.waiters@.len() > 0 { Some(q0.waiters@[0]) } else { None })
    &&& q1.waiters@ == (if q0.waiters@.len() > 0 { q0.waiters@.drop_first() } else { q0.waiters@ })
    &&& match decoded {
        None => r.1 == KeyAction::Nothing && s1 == s0,
        Some(c) => char_effect(s0, s1, c, r.1),
    }
}

/// What a key event does: queues the raw event for programs (waking the first task that
/// waits for one) and, for a decoded character, updates the line being typed.
pub fn on_key_event(
    queue: &mut KeyboardEventQueue,
    state: &mut KeyboardState,
    timestamp_nanos: u64,
    code: u8,
    down: bool,
    decoded: Option<char>,
) -> (r: (Option<TaskId>, KeyAction))
    requires
        decoded == Some(NEWLINE) ==> old(state).lines_ready < usize::MAX,
    ensures
        key_event_effect(*old(queue), *final(queue), *old(state), *final(state), timestamp_nanos, code, down, decoded, r),
{
    let ev = RawKeyEvent { timestamp_nanos, code, state: if down { 1 } else { 0 } };
    let wake = queue.record_event(ev);
    match decoded {
        None => (wake, KeyAction::Nothing),
        Some(c) => (wake, state.handle_char(c)),
    }
}

/// A PS/2 keyboard decoder: scancode set 1, the US 104-key layout, Ctrl passed through. It
/// keeps the bytes of an unfinished scancode and the state of the modifier keys.
#[verifier::external_body]
pub struct KeyDecoder {
    kb: PS2Keyboard<Us104Key, ScancodeSet1>,
}

/// A decoder that has seen no byte (`PS2Keyboard::new`).
#[verifier::external_body]
pub fn new_decoder() -> (r: KeyDecoder) {
    KeyDecoder { kb: PS2Keyboard::new(ScancodeSet1::new(), Us104Key, HandleControl::Ignore) }
}

/// Feeds a scancode byte to the decoder; the key event it completes, if any, and `None`
/// on a decoding error (`PS2Keyboard::add_byte`). What comes out depends on the bytes fed
/// before, which the decoder keeps, so nothing is stated of it.
#[verifier::external_body]
fn decoder_add_byte(kb: &mut KeyDecoder, byte: u8) -> (r: Option<KeyEvent>) {
    match kb.kb.add_byte(byte) {
        Ok(ev) => ev,
        Err(_) => None,
    }
}

/// The key code of a key event and whether the key went down (the fields `code` and
/// `state` of `KeyEvent`). The code is the position of the key in `KeyCode`, which is not
/// stated here.
#[verifier::external_body]
fn key_event_fields(ev: &KeyEvent) -> (r: (u8, bool)) {
    let down = match ev.state {
        KeyState::Down => true,
        KeyState::Up => false,
        KeyState::SingleShot => false,
    };
    (ev.code as u8, down)
}

/// The character that a key event types, `Some(None)` for a key without one and `None`
/// when the event types nothing (`PS2Keyboard::process_keyevent`). It depends on the
/// modifier keys the decoder has seen, so nothing is stated of it.
#[verifier::external_body]
fn decoder_process(kb: &mut KeyDecoder, ev: KeyEvent) -> (r: Option<Option<char>>) {
    match kb.kb.process_keyevent(ev) {
        Some(DecodedKey::Unicode(c)) => Some(Some(c)),
        Some(DecodedKey::RawKey(_)) => Some(None),
        None => None,
    }
}

/// What a scancode that completes a key event does: what some key event at
/// `timestamp_nanos` does (see `key_event_effect`); a newline is typed only while the count
/// of ready lines can grow.
pub open spec fn scancode_effect(
    q0: KeyboardEventQueue,
    q1: KeyboardEventQueue,
    s0: KeyboardState,
    s1: KeyboardState,
    timestamp_nanos: u64,
    out: (Option<TaskId>, KeyAction),
) -> bool {
    exists|code: u8, down: bool, decoded: Option<char>|
        #![trigger key_event_effect(q0, q1, s0, s1, timestamp_nanos, code, down, decoded, out)]
        key_event_effect(q0, q1, s0, s1, timestamp_nanos, code, down, decoded, out) && (decoded == Some(NEWLINE)
            ==> s0.lines_ready < usize::MAX)
}

/// Takes a scancode: when it completes a key event, the event is queued for programs and a
/// typed character goes into the line (see `on_key_event`); returns the task to wake for
/// the event and what the terminal shows. A newline is only taken while the count of ready
/// lines can grow.
pub fn on_scancode(
    kb: &mut KeyDecoder,
    queue: &mut KeyboardEventQueue,
    state: &mut KeyboardState,
    scancode: u8,
    timestamp_nanos: u64,
) -> (r: Option<(Option<TaskId>, KeyAction)>)
    ensures
        match r {
            None => *final(queue) == *old(queue) && *final(state) == *old(state),
            Some(out) => scancode_effect(*old(queue), *final(queue), *old(state), *final(state), timestamp_nanos, out),
        },
{
    let ev = match decoder_add_byte(kb, scancode) {
        Some(ev) => ev,
        None => {
            return None;
        },
    };
    let (code, down) = key_event_fields(&ev);
    let decoded = match decoder_process(kb, ev) {
        Some(Some(c)) => {
            if c == NEWLINE && state.lines_ready == usize::MAX {
                None
            } else {
                Some(c)
            }
        },
        _ => None,
    };
    let step = on_key_event(queue, state, timestamp_nanos, code, down, decoded);
    proof {
        assert(key_event_effect(*old(queue), *final(queue), *old(state), *final(state), timestamp_nanos, code, down, decoded, step));
        assert(scancode_effect(*old(queue), *final(queue), *old(state), *final(state), timestamp_nanos, step));
    }
    Some(step)
}

#[verifier::external_type_specification]
#[verifier::external_body]
pub struct ExKeyEvent(KeyEvent);

} // verus!
