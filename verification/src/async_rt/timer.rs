//! Sleeping asynchronous tasks: the timers they wait on and what polling them decides.
use vstd::prelude::*;

verus! {

/// Nanoseconds since boot.
pub type Nanoseconds = u64;

/// The keys of `s` are strictly increasing.
pub open spec fn keys_sorted<W>(s: Seq<(u64, Vec<W>)>) -> bool {
    forall|i: int, j: int| 0 <= i < j < s.len() ==> (#[trigger] s[i]).0 < (#[trigger] s[j]).0
}

/// The number of leading timers of `s` that go off before `target`: where the timer of
/// `target` is, or goes.
pub open spec fn timer_pos<W>(s: Seq<(u64, Vec<W>)>, target: u64) -> int
    decreases s.len(),
{
    if s.len() > 0 && s[0].0 < target {
        1 + timer_pos(s.drop_first(), target)
    } else {
        0
    }
}

/// `t` is the timers `s` with `waker` registered for `target`: added at the end of the
/// wakers of the timer of `target`, or as the only waker of a new timer placed after the
/// timers that go off earlier.
pub open spec fn registration<W>(s: Seq<(u64, Vec<W>)>, t: Seq<(u64, Vec<W>)>, target: u64, waker: W) -> bool {
    let p = timer_pos(s, target);
    &&& 0 <= p <= s.len()
    &&& t[p].0 == target
    &&& if p < s.len() && s[p].0 == target {
        &&& t.len() == s.len()
        &&& t[p].1@ == s[p].1@.push(waker)
        &&& forall|j: int| 0 <= j < s.len() && j != p ==> #[trigger] t[j] == s[j]
    } else {
        &&& t == s.insert(p, t[p])
        &&& t[p].1@ == seq![waker]
    }
}

proof fn lemma_timer_pos<W>(s: Seq<(u64, Vec<W>)>, target: u64, i: int)
    requires
        0 <= i <= s.len(),
        forall|j: int| 0 <= j < i ==> (#[trigger] s[j]).0 < target,
        i == s.len() || s[i].0 >= target,
    ensures
        timer_pos(s, target) == i,
    decreases i,
{
    if i > 0 {
        assert forall|j: int| 0 <= j < i - 1 implies (#[trigger] s.drop_first()[j]).0 < target by {
            assert(s.drop_first()[j] == s[j + 1]);
        }
        lemma_timer_pos(s.drop_first(), target, i - 1);
    }
}

proof fn lemma_timer_pos_bounds<W>(s: Seq<(u64, Vec<W>)>, target: u64)
    ensures
        0 <= timer_pos(s, target) <= s.len(),
        forall|j: int| 0 <= j < timer_pos(s, target) ==> (#[trigger] s[j]).0 < target,
    decreases s.len(),
{
    if s.len() > 0 && s[0].0 < target {
        lemma_timer_pos_bounds(s.drop_first(), target);
        assert forall|j: int| 0 <= j < timer_pos(s, target) implies (#[trigger] s[j]).0 < target by {
            if j > 0 {
                assert(s[j] == s.drop_first()[j - 1]);
            }
        }
    }
}

/// A waker registered for `target` is the last waker of the timer of `target`, and every
/// timer before that one goes off earlier: the waker is handed out with the first expired
/// timers taken at or after `target`.
pub proof fn lemma_registered_waker<W>(s: Seq<(u64, Vec<W>)>, t: Seq<(u64, Vec<W>)>, target: u64, waker: W)
    requires
        registration(s, t, target, waker),
    ensures
        t[timer_pos(s, target)].0 == target,
        t[timer_pos(s, target)].1@.last() == waker,
        forall|j: int| 0 <= j < timer_pos(s, target) ==> (#[trigger] t[j]).0 < target,
{
    lemma_timer_pos_bounds(s, target);
    let p = timer_pos(s, target);
    assert forall|j: int| 0 <= j < p implies (#[trigger] t[j]).0 < target by {
        assert(t[j] == s[j]);
    }
}

/// The wakers of sleeping tasks, grouped by the time they wake at, earliest first.
pub struct TimerQueue<W> {
    pub entries: Vec<(u64, Vec<W>)>,
}

impl<W> TimerQueue<W> {
    /// No timer.
    pub fn new() -> (r: TimerQueue<W>)
        ensures
            r.entries@.len() == 0,
    {
        TimerQueue { entries: Vec::new() }
    }

    /// The earliest wake-up time, if any timer is set.
    pub fn min_timestamp(&self) -> (r: Option<u64>)
        ensures
            self.entries@.len() == 0 ==> r is None,
            self.entries@.len() > 0 ==> r == Some(self.entries@[0].0),
    {
        if self.entries.len() == 0 {
            None
        } else {
            Some(self.entries[0].0)
        }
    }

    /// Adds `waker` at the end of the wakers of the timer that goes off at `target`, or as
    /// the only waker of a new timer placed after the earlier ones; returns whether
    /// `target` is earlier than every timer set before (or there was none).
    pub fn register(&mut self, target: u64, waker: W) -> (r: bool)
        requires
            keys_sorted(old(self).entries@),
        ensures
            keys_sorted(final(self).entries@),
            r == (old(self).entries@.len() == 0 || old(self).entries@[0].0 > target),
            registration(old(self).entries@, final(self).entries@, target, waker),
    {
        let is_earliest = self.entries.len() == 0 || self.entries[0].0 > target;
        let ghost s = self.entries@;
        let mut i: usize = 0;
        while i < self.entries.len() && self.entries[i].0 < target
            invariant
                i <= self.entries@.len(),
                self.entries@ == s,
                forall|j: int| 0 <= j < i ==> (#[trigger] s[j]).0 < target,
            decreases self.entries@.len() - i,
        {
            i = i + 1;
        }
        proof {
            lemma_timer_pos(s, target, i as int);
        }
        if i < self.entries.len() && self.entries[i].0 == target {
            let (key, mut wakers) = self.entries.remove(i);
            wakers.push(waker);
            self.entries.insert(i, (key, wakers));
            proof {
                assert(self.entries@ =~= s.update(i as int, self.entries@[i as int]));
                assert forall|a: int, b: int| 0 <= a < b < self.entries@.len() implies (#[trigger] self.entries@[a]).0 < (#[trigger] self.entries@[b]).0 by {
                    assert(s[a].0 < s[b].0);
                }
            }
        } else {
            let mut wakers: Vec<W> = Vec::new();
            wakers.push(waker);
            self.entries.insert(i, (target, wakers));
            proof {
                assert forall|a: int, b: int| 0 <= a < b < self.entries@.len() implies (#[trigger] self.entries@[a]).0 < (#[trigger] self.entries@[b]).0 by {
                    if b < i {
                        assert(self.entries@[a] == s[a] && self.entries@[b] == s[b]);
                    } else if b == i {
                        assert(self.entries@[a] == s[a]);
                    } else if a == i {
                        assert(self.entries@[b] == s[b - 1]);
                        assert(s[i as int].0 <= s[b - 1].0);
                    } else if a < i {
                        assert(self.entries@[a] == s[a] && self.entries@[b] == s[b - 1]);
                    } else {
                        assert(self.entries@[a] == s[a - 1] && self.entries@[b] == s[b - 1]);
                    }
                }
            }
        }
        is_earliest
    }

    /// Takes the wakers of the earliest timer when it has gone off by `now`.
    pub fn pop_expired(&mut self, now: u64) -> (r: Option<Vec<W>>)
        requires
            keys_sorted(old(self).entries@),
        ensures
            keys_sorted(final(self).entries@),
            old(self).entries@.len() > 0 && now >= old(self).entries@[0].0 ==> r == Some(old(self).entries@[0].1)
                && final(self).entries@ == old(self).entries@.drop_first(),
            !(old(self).entries@.len() > 0 && now >= old(self).entries@[0].0) ==> r is None && final(self).entries@
                == old(self).entries@,
    {
        if self.entries.len() > 0 && now >= self.entries[0].0 {
            let ghost s = self.entries@;
            let (_, wakers) = self.entries.remove(0);
            proof {
                assert(self.entries@ =~= s.drop_first());
                assert forall|a: int, b: int| 0 <= a < b < self.entries@.len() implies (#[trigger] self.entries@[a]).0 < (#[trigger] self.entries@[b]).0 by {
                    assert(s[a + 1].0 < s[b + 1].0);
                }
            }
            Some(wakers)
        } else {
            None
        }
    }
}

/// What polling the dispatcher's timer decides.
#[derive(Debug, Clone, Copy, PartialEq, Eq, Structural)]
pub enum TimerStep {
    /// The target time has come.
    Ready,
    /// No sleep is pending: wait to be woken.
    Idle,
    /// Arm the APIC timer to fire in `delta` nanoseconds, and wait.
    Arm { delta: u64 },
    /// Woken early by a new earlier sleep: stop the APIC timer.
    Stop,
}

/// The dispatcher's wait for the earliest timer; a target of 0 means no timer is set.
pub struct Timer {
    pub target: Nanoseconds,
    pub timer_started: bool,
}

impl Timer {
    /// A wait until `target`, not yet polled.
    pub fn new(target: Nanoseconds) -> (r: Timer)
        ensures
            r.target == target,
            !r.timer_started,
    {
        Timer { target, timer_started: false }
    }

    /// What polling at time `now` decides: ready once the target is reached; on the first
    /// poll, arm the timer for the time left (or just wait when no target is set); on a
    /// later poll, stop.
    pub fn poll(&mut self, now: Nanoseconds) -> (r: TimerStep)
        ensures
            final(self).target == old(self).target,
            old(self).target != 0 && now >= old(self).target ==> r == TimerStep::Ready && final(self).timer_started == old(self).timer_started,
            !(old(self).target != 0 && now >= old(self).target) ==> final(self).timer_started && r == (if old(self).timer_started {
                TimerStep::Stop
            } else if old(self).target == 0 {
                TimerStep::Idle
            } else {
                TimerStep::Arm { delta: (old(self).target - now) as u64 }
            }),
    {
        if self.target != 0 && now >= self.target {
            return TimerStep::Ready;
        }
        if !self.timer_started {
            self.timer_started = true;
            if self.target == 0 {
                return TimerStep::Idle;
            }
            return TimerStep::Arm { delta: self.target - now };
        }
        TimerStep::Stop
    }
}

/// What polling a sleep decides.
#[derive(Debug, Clone, Copy, PartialEq, Eq, Structural)]
pub enum SleepStep {
    /// The sleep is over.
    Ready,
    /// Still sleeping; `wake_dispatcher` asks for the dispatcher to be woken to rearm its
    /// timer for this earlier sleep.
    Pending { wake_dispatcher: bool },
}

/// A task's sleep until `target`.
pub struct Sleep {
    pub target: Nanoseconds,
    pub registered: bool,
}

impl Sleep {
    /// A sleep until `target`, not yet registered.
    pub fn new(target: Nanoseconds) -> (r: Sleep)
        ensures
            r.target == target,
            !r.registered,
    {
        Sleep { target, registered: false }
    }

    /// A sleep of `nanos` nanoseconds from `now`.
    pub fn for_duration(now: Nanoseconds, nanos: u64) -> (r: Sleep)
        requires
            now + nanos <= u64::MAX,
        ensures
            r.target == now + nanos,
            !r.registered,
    {
        Sleep::new(now + nanos)
    }

    /// What polling at time `now` decides: over once the target is reached; on the first
    /// poll, registers `waker` in `timers` and asks for the dispatcher to be woken when this
    /// is the earliest timer.
    pub fn poll<W>(&mut self, now: Nanoseconds, timers: &mut TimerQueue<W>, waker: W) -> (r: SleepStep)
        requires
            keys_sorted(old(timers).entries@),
        ensures
            keys_sorted(final(timers).entries@),
            final(self).target == old(self).target,
            now >= old(self).target ==> r == SleepStep::Ready && final(timers).entries@ == old(timers).entries@
                && final(self).registered == old(self).registered,
            now < old(self).target && old(self).registered ==> r == (SleepStep::Pending { wake_dispatcher: false })
                && final(timers).entries@ == old(timers).entries@ && final(self).registered,
            now < old(self).target && !old(self).registered ==> final(self).registered && r == (SleepStep::Pending {
                wake_dispatcher: old(timers).entries@.len() == 0 || old(timers).entries@[0].0 > old(self).target,
            }) && registration(old(timers).entries@, final(timers).entries@, old(self).target, waker),
    {
        if now >= self.target {
            return SleepStep::Ready;
        }
        if !self.registered {
            self.registered = true;
            let is_earliest = timers.register(self.target, waker);
            return SleepStep::Pending { wake_dispatcher: is_earliest };
        }
        SleepStep::Pending { wake_dispatcher: false }
    }
}

} // verus!
