use magicalos::async_rt::timer::{Sleep, SleepStep, Timer, TimerQueue, TimerStep};
use magicalos::drivers::keyboard::{
    new_decoder, on_key_event, on_scancode, push_utf8, KeyAction, KeyboardEventQueue, KeyboardState, RawKeyEvent,
    EVENT_SIZE, MAX_EVENTS,
};
use magicalos::io::Error;
use magicalos::scheduler::task::TaskId;

fn ev(t: u64, code: u8) -> RawKeyEvent {
    RawKeyEvent { timestamp_nanos: t, code, state: 1 }
}

#[test]
fn event_queue_wakes_first_waiter_once() {
    let mut q = KeyboardEventQueue::new();
    q.add_waiter(TaskId(3));
    q.add_waiter(TaskId(4));
    q.add_waiter(TaskId(3));
    assert_eq!(q.waiters.len(), 2);
    assert_eq!(q.record_event(ev(1, 10)), Some(TaskId(3)));
    assert_eq!(q.record_event(ev(2, 11)), Some(TaskId(4)));
    assert_eq!(q.record_event(ev(3, 12)), None);
    assert_eq!(q.events.len(), 3);
}

#[test]
fn event_queue_drops_events_when_full() {
    let mut q = KeyboardEventQueue::new();
    for i in 0..(MAX_EVENTS as u64 + 5) {
        q.record_event(ev(i, 1));
    }
    assert_eq!(q.events.len(), MAX_EVENTS);
    assert_eq!(q.events.back().unwrap().timestamp_nanos, MAX_EVENTS as u64 - 1);
}

#[test]
fn event_queue_reads_whole_events() {
    let mut q = KeyboardEventQueue::new();
    q.record_event(RawKeyEvent { timestamp_nanos: 0x0102_0304_0506_0708, code: 0x2A, state: 1 });
    q.record_event(RawKeyEvent { timestamp_nanos: 9, code: 0x2B, state: 0 });
    let mut small = [0u8; EVENT_SIZE - 1];
    assert_eq!(q.read_events(&mut small), Err(Error::InvalidValue));
    let mut buf = [0xEEu8; EVENT_SIZE + 3];
    assert_eq!(q.read_events(&mut buf), Ok(EVENT_SIZE));
    assert_eq!(&buf[..8], &[8, 7, 6, 5, 4, 3, 2, 1]);
    assert_eq!(&buf[8..16], &[0x2A, 1, 0, 0, 0, 0, 0, 0]);
    assert_eq!(&buf[16..], &[0xEE, 0xEE, 0xEE]);
    let mut big = [0u8; 4 * EVENT_SIZE];
    assert_eq!(q.read_events(&mut big), Ok(EVENT_SIZE));
    assert_eq!(big[0], 9);
    assert_eq!(big[8], 0x2B);
    assert_eq!(big[9], 0);
    assert_eq!(q.read_events(&mut big), Ok(0));
}

#[test]
fn utf8_encoding() {
    let mut out = Vec::new();
    for c in ['a', 'é', '€', '😀'] {
        push_utf8(&mut out, c);
    }
    assert_eq!(out, "aé€😀".as_bytes());
}

#[test]
fn line_discipline() {
    let mut s = KeyboardState::new();
    assert_eq!(s.handle_char('\x08'), KeyAction::Nothing);
    assert_eq!(s.handle_char('h'), KeyAction::Echo('h'));
    assert_eq!(s.handle_char('x'), KeyAction::Echo('x'));
    assert_eq!(s.handle_char('\x08'), KeyAction::Backspace);
    assert_eq!(s.handle_char('i'), KeyAction::Echo('i'));
    s.add_waiter(TaskId(7));
    s.add_waiter(TaskId(7));
    assert_eq!(s.handle_char('\n'), KeyAction::Newline { wake: Some(TaskId(7)) });
    assert_eq!(s.lines_ready, 1);
    assert!(s.current_line.is_empty());
    assert_eq!(s.ready_buffer.iter().copied().collect::<Vec<u8>>(), b"hi\n");
    assert_eq!(s.handle_char('\n'), KeyAction::Newline { wake: None });
    assert_eq!(s.lines_ready, 2);
    assert_eq!(s.ready_buffer.iter().copied().collect::<Vec<u8>>(), b"hi\n\n");
}

#[test]
fn key_event_feeds_queue_and_line() {
    let mut q = KeyboardEventQueue::new();
    let mut s = KeyboardState::new();
    q.add_waiter(TaskId(2));
    let (wake, action) = on_key_event(&mut q, &mut s, 100, 0x1E, true, Some('a'));
    assert_eq!(wake, Some(TaskId(2)));
    assert_eq!(action, KeyAction::Echo('a'));
    assert_eq!(q.events[0], RawKeyEvent { timestamp_nanos: 100, code: 0x1E, state: 1 });
    let (wake, action) = on_key_event(&mut q, &mut s, 200, 0x1E, false, None);
    assert_eq!(wake, None);
    assert_eq!(action, KeyAction::Nothing);
    assert_eq!(q.events[1].state, 0);
    assert_eq!(s.current_line, b"a");
}

#[test]
fn scancodes_are_decoded() {
    let mut kb = new_decoder();
    let mut q = KeyboardEventQueue::new();
    let mut s = KeyboardState::new();
    // 0x23 is the H key going down in scancode set 1, 0xA3 is it going up
    let down = on_scancode(&mut kb, &mut q, &mut s, 0x23, 5).unwrap();
    assert_eq!(down.1, KeyAction::Echo('h'));
    let up = on_scancode(&mut kb, &mut q, &mut s, 0xA3, 6).unwrap();
    assert_eq!(up.1, KeyAction::Nothing);
    assert_eq!(q.events.len(), 2);
    assert_eq!(q.events[0].state, 1);
    assert_eq!(q.events[1].state, 0);
    assert_eq!(q.events[0].code, q.events[1].code);
    // the first byte of an extended code completes nothing
    assert!(on_scancode(&mut kb, &mut q, &mut s, 0xE0, 7).is_none());
    assert_eq!(q.events.len(), 2);
}

#[test]
fn timer_queue_orders_and_groups_wakers() {
    let mut t: TimerQueue<u32> = TimerQueue::new();
    assert_eq!(t.min_timestamp(), None);
    assert!(t.register(50, 1));
    assert!(!t.register(70, 2));
    assert!(t.register(30, 3));
    assert!(!t.register(50, 4));
    assert_eq!(t.min_timestamp(), Some(30));
    assert_eq!(t.pop_expired(29), None);
    assert_eq!(t.pop_expired(30), Some(vec![3]));
    assert_eq!(t.pop_expired(100), Some(vec![1, 4]));
    assert_eq!(t.pop_expired(100), Some(vec![2]));
    assert_eq!(t.pop_expired(100), None);
}

#[test]
fn dispatcher_timer_steps() {
    let mut idle = Timer::new(0);
    assert_eq!(idle.poll(10), TimerStep::Idle);
    assert_eq!(idle.poll(20), TimerStep::Stop);
    let mut t = Timer::new(100);
    assert_eq!(t.poll(40), TimerStep::Arm { delta: 60 });
    assert_eq!(t.poll(50), TimerStep::Stop);
    assert_eq!(t.poll(100), TimerStep::Ready);
}

#[test]
fn sleep_registers_once() {
    let mut timers: TimerQueue<&str> = TimerQueue::new();
    let mut a = Sleep::for_duration(10, 90);
    assert_eq!(a.target, 100);
    assert_eq!(a.poll(20, &mut timers, "a"), SleepStep::Pending { wake_dispatcher: true });
    assert_eq!(a.poll(30, &mut timers, "a"), SleepStep::Pending { wake_dispatcher: false });
    let mut b = Sleep::new(200);
    assert_eq!(b.poll(30, &mut timers, "b"), SleepStep::Pending { wake_dispatcher: false });
    let mut c = Sleep::new(50);
    assert_eq!(c.poll(30, &mut timers, "c"), SleepStep::Pending { wake_dispatcher: true });
    assert_eq!(timers.pop_expired(60), Some(vec!["c"]));
    assert_eq!(a.poll(100, &mut timers, "a"), SleepStep::Ready);
    assert_eq!(timers.pop_expired(100), Some(vec!["a"]));
}
