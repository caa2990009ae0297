use vstd::prelude::*;

verus! {

use vstd::arithmetic::div_mod::lemma_div_is_ordered;
use crate::stats::{PingResult, TargetStats};
use crate::target::Target;

/// Greatest number of events a replay will load; a longer log is truncated.
pub const MAX_REPLAY_EVENTS: usize = 1000000;

/// Least and greatest replay speed, in thousandths of real time.
pub const MIN_SPEED_MILLI: u64 = 100;

pub const MAX_SPEED_MILLI: u64 = 100000;

/// One persisted probe event: when it happened (microseconds since the
/// epoch), which target it belonged to at recording time, that target's
/// name and address, and the measured latency (`None` for a loss).
#[derive(Debug)]
pub struct PingEvent {
    pub timestamp_us: u64,
    pub target_idx: usize,
    pub target_name: String,
    pub target_addr: String,
    pub latency_us: Option<u64>,
}

/// Field-wise agreement of two events (name and address by contents).
pub open spec fn event_eq(a: PingEvent, b: PingEvent) -> bool {
    &&& a.timestamp_us == b.timestamp_us
    &&& a.target_idx == b.target_idx
    &&& a.target_name@ == b.target_name@
    &&& a.target_addr@ == b.target_addr@
    &&& a.latency_us == b.latency_us
}

fn clone_event(e: &PingEvent) -> (r: PingEvent)
    ensures
        event_eq(r, *e),
{
    PingEvent {
        timestamp_us: e.timestamp_us,
        target_idx: e.target_idx,
        target_name: e.target_name.clone(),
        target_addr: e.target_addr.clone(),
        latency_us: e.latency_us,
    }
}

/// The outcome a persisted event stands for: a success with its latency,
/// or a timeout.
pub open spec fn event_outcome(e: PingEvent) -> PingResult {
    match e.latency_us {
        Some(us) => PingResult::Success(us),
        None => PingResult::Timeout,
    }
}

/// Why a replay could not be prepared.
#[derive(Debug, Clone, Copy, PartialEq, Eq, Structural)]
pub enum ReplayError {
    /// The loaded log held no events.
    EmptyLog,
}

impl ReplayError {
    pub fn message(&self) -> &'static str {
        "log file is empty"
    }
}

/// A speed clamped into the allowed range.
pub open spec fn clamp_speed(s: u64) -> u64 {
    if s < MIN_SPEED_MILLI {
        MIN_SPEED_MILLI
    } else if s > MAX_SPEED_MILLI {
        MAX_SPEED_MILLI
    } else {
        s
    }
}

/// Elapsed wall-clock time scaled by the replay speed, in microseconds.
pub open spec fn scaled_elapsed(now: u64, anchor_wall: u64, speed_milli: u64) -> int {
    if now >= anchor_wall {
        (now - anchor_wall) * speed_milli / 1000
    } else {
        0
    }
}

/// The recorded timestamp the replay has reached at wall-clock `now`.
pub open spec fn virtual_time(now: u64, anchor_wall: u64, anchor_log: u64, speed_milli: u64) -> int {
    anchor_log + scaled_elapsed(now, anchor_wall, speed_milli)
}

/// Where the cursor stands after advancing from `idx` over every event
/// whose timestamp is at most `vt`, stopping at the first later one.
pub open spec fn cursor_after(events: Seq<PingEvent>, idx: int, vt: int) -> int
    recommends
        0 <= idx <= events.len(),
    decreases events.len() - idx
        when 0 <= idx <= events.len()
{
    if idx < events.len() && events[idx].timestamp_us <= vt {
        cursor_after(events, idx + 1, vt)
    } else {
        idx
    }
}

/// The cursor never moves backwards, never leaves the log, and passes
/// exactly the events whose timestamps have been reached.
pub proof fn lemma_cursor_props(events: Seq<PingEvent>, idx: int, vt: int)
    requires
        0 <= idx <= events.len(),
    ensures
        idx <= cursor_after(events, idx, vt) <= events.len(),
        forall|k: int|
            idx <= k < cursor_after(events, idx, vt) ==> #[trigger] events[k].timestamp_us <= vt,
        cursor_after(events, idx, vt) < events.len() ==> events[cursor_after(
            events,
            idx,
            vt,
        )].timestamp_us > vt,
    decreases events.len() - idx,
{
    if idx < events.len() && events[idx].timestamp_us <= vt {
        lemma_cursor_props(events, idx + 1, vt);
    }
}

/// A later virtual time never moves the cursor less far: the cumulative
/// count of replayed events is non-decreasing in time.
pub proof fn lemma_cursor_monotone(events: Seq<PingEvent>, idx: int, vt1: int, vt2: int)
    requires
        0 <= idx <= events.len(),
        vt1 <= vt2,
    ensures
        cursor_after(events, idx, vt1) <= cursor_after(events, idx, vt2),
    decreases events.len() - idx,
{
    if idx < events.len() && events[idx].timestamp_us <= vt1 {
        lemma_cursor_monotone(events, idx + 1, vt1, vt2);
    } else if idx < events.len() && events[idx].timestamp_us <= vt2 {
        lemma_cursor_props(events, idx + 1, vt2);
    }
}

/// The virtual clock is monotone in wall-clock time, for a fixed anchor
/// and speed.
pub proof fn lemma_virtual_time_monotone(
    now1: u64,
    now2: u64,
    anchor_wall: u64,
    anchor_log: u64,
    speed_milli: u64,
)
    requires
        now1 <= now2,
    ensures
        virtual_time(now1, anchor_wall, anchor_log, speed_milli) <= virtual_time(
            now2,
            anchor_wall,
            anchor_log,
            speed_milli,
        ),
{
    if now1 >= anchor_wall {
        assert(((now1 - anchor_wall) as int) * speed_milli <= ((now2 - anchor_wall) as int)
            * speed_milli) by (nonlinear_arith)
            requires
                anchor_wall <= now1 <= now2,
                speed_milli >= 0,
        ;
        lemma_div_is_ordered(
            ((now1 - anchor_wall) as int) * speed_milli,
            ((now2 - anchor_wall) as int) * speed_milli,
            1000,
        );
    } else if now2 >= anchor_wall {
        assert(((now2 - anchor_wall) as int) * speed_milli >= 0) by (nonlinear_arith)
            requires
                anchor_wall <= now2,
                speed_milli >= 0,
        ;
        lemma_div_is_ordered(0, ((now2 - anchor_wall) as int) * speed_milli, 1000);
    }
}

/// At a fixed anchor and speed, a later wall-clock instant never yields a
/// smaller cumulative count of replayed events.
pub proof fn lemma_poll_counts_monotone(
    events: Seq<PingEvent>,
    idx: int,
    now1: u64,
    now2: u64,
    anchor_wall: u64,
    anchor_log: u64,
    speed_milli: u64,
)
    requires
        0 <= idx <= events.len(),
        now1 <= now2,
    ensures
        cursor_after(events, idx, virtual_time(now1, anchor_wall, anchor_log, speed_milli))
            <= cursor_after(events, idx, virtual_time(now2, anchor_wall, anchor_log, speed_milli)),
{
    lemma_virtual_time_monotone(now1, now2, anchor_wall, anchor_log, speed_milli);
    lemma_cursor_monotone(
        events,
        idx,
        virtual_time(now1, anchor_wall, anchor_log, speed_milli),
        virtual_time(now2, anchor_wall, anchor_log, speed_milli),
    );
}

/// Polling twice hands out adjacent, non-overlapping stretches of the log:
/// resuming after a pause neither skips nor repeats an event, whatever the
/// two virtual times are.
pub proof fn lemma_replay_no_skip_no_dup(events: Seq<PingEvent>, idx: int, vt1: int, vt2: int)
    requires
        0 <= idx <= events.len(),
    ensures
        ({
            let c1 = cursor_after(events, idx, vt1);
            let c2 = cursor_after(events, c1, vt2);
            events.subrange(idx, c1) + events.subrange(c1, c2) == events.subrange(idx, c2)
        }),
{
    let c1 = cursor_after(events, idx, vt1);
    lemma_cursor_props(events, idx, vt1);
    let c2 = cursor_after(events, c1, vt2);
    lemma_cursor_props(events, c1, vt2);
    assert(events.subrange(idx, c1) + events.subrange(c1, c2) =~= events.subrange(idx, c2));
}

/// Deterministic playback of a recorded probe session: an immutable event
/// list, a cursor, a virtual-clock anchor, and the playback controls.
pub struct ReplayState {
    /// All events loaded from the log, in recorded order.
    pub events: Vec<PingEvent>,
    /// Position of the next event to replay.
    pub current_idx: usize,
    /// Wall-clock instant of the last control action, in microseconds.
    pub anchor_wall_us: u64,
    /// Recorded timestamp paired with `anchor_wall_us`.
    pub anchor_log_us: u64,
    /// Speed multiplier in thousandths.
    pub speed_milli: u64,
    /// Whether playback is paused.
    pub paused: bool,
    /// Whether the cursor has exhausted the log.
    pub finished: bool,
}

impl ReplayState {
    pub open spec fn wf(self) -> bool {
        &&& self.current_idx <= self.events@.len()
        &&& self.events@.len() <= MAX_REPLAY_EVENTS
        &&& MIN_SPEED_MILLI <= self.speed_milli <= MAX_SPEED_MILLI
    }

    /// Prepares a replay over a loaded event list: an empty log is refused;
    /// an oversized one is truncated at `MAX_REPLAY_EVENTS`; the speed is
    /// clamped; the virtual clock is anchored at (`now_wall_us`, first
    /// event's timestamp).
    pub fn new(events: Vec<PingEvent>, speed_milli: u64, now_wall_us: u64) -> (r: Result<
        ReplayState,
        ReplayError,
    >)
        ensures
            (r is Err) == (events@.len() == 0),
            r matches Err(e) ==> e == ReplayError::EmptyLog,
            r matches Ok(s) ==> {
                &&& s.wf()
                &&& s.events@ == events@.subrange(
                    0,
                    if events@.len() <= MAX_REPLAY_EVENTS {
                        events@.len() as int
                    } else {
                        MAX_REPLAY_EVENTS as int
                    },
                )
                &&& s.current_idx == 0
                &&& s.anchor_wall_us == now_wall_us
                &&& s.anchor_log_us == events@[0].timestamp_us
                &&& s.speed_milli == clamp_speed(speed_milli)
                &&& !s.paused
                &&& !s.finished
            },
    {
        if events.len() == 0 {
            return Err(ReplayError::EmptyLog);
        }
        let mut events = events;
        if events.len() > MAX_REPLAY_EVENTS {
            events.truncate(MAX_REPLAY_EVENTS);
        }
        let anchor_log_us = events[0].timestamp_us;
        let speed = if speed_milli < MIN_SPEED_MILLI {
            MIN_SPEED_MILLI
        } else if speed_milli > MAX_SPEED_MILLI {
            MAX_SPEED_MILLI
        } else {
            speed_milli
        };
        Ok(
            ReplayState {
                events,
                current_idx: 0,
                anchor_wall_us: now_wall_us,
                anchor_log_us,
                speed_milli: speed,
                paused: false,
                finished: false,
            },
        )
    }

    /// Number of events in the replay.
    pub fn total_events(&self) -> (n: usize)
        ensures
            n == self.events@.len(),
    {
        self.events.len()
    }

    /// Position of the next event to replay.
    pub fn current_event(&self) -> (n: usize)
        ensures
            n == self.current_idx,
    {
        self.current_idx
    }

    /// Replay progress as a whole percentage.
    pub fn progress(&self) -> (r: u64)
        requires
            self.wf(),
        ensures
            r as int == (if self.events@.len() == 0 {
                100
            } else {
                self.current_idx * 100 / (self.events@.len() as int)
            }),
    {
        if self.events.len() == 0 {
            return 100;
        }
        (self.current_idx as u64) * 100 / (self.events.len() as u64)
    }

    /// Recorded timestamp at the cursor, if any event is left.
    pub fn current_log_time(&self) -> (r: Option<u64>)
        requires
            self.wf(),
        ensures
            r == (if self.current_idx < self.events@.len() {
                Some(self.events@[self.current_idx as int].timestamp_us)
            } else {
                None::<u64>
            }),
    {
        if self.current_idx < self.events.len() {
            Some(self.events[self.current_idx].timestamp_us)
        } else {
            None
        }
    }

    /// Recorded span of the log, in microseconds.
    pub fn log_duration(&self) -> (r: u64)
        ensures
            r == (if self.events@.len() == 0 {
                0u64
            } else {
                let first = self.events@[0].timestamp_us;
                let last = self.events@[self.events@.len() - 1].timestamp_us;
                if last >= first {
                    (last - first) as u64
                } else {
                    0u64
                }
            }),
    {
        let n = self.events.len();
        if n == 0 {
            return 0;
        }
        let first = self.events[0].timestamp_us;
        let last = self.events[n - 1].timestamp_us;
        if last >= first {
            last - first
        } else {
            0
        }
    }

    /// Pauses, or resumes with the virtual clock re-anchored at the cursor
    /// so that time spent paused does not advance the replay.
    pub fn toggle_pause(&mut self, now_wall_us: u64)
        requires
            old(self).wf(),
        ensures
            final(self).wf(),
            final(self).paused == !old(self).paused,
            final(self).events@ == old(self).events@,
            final(self).current_idx == old(self).current_idx,
            final(self).speed_milli == old(self).speed_milli,
            final(self).finished == old(self).finished,
            final(self).paused ==> final(self).anchor_wall_us == old(self).anchor_wall_us
                && final(self).anchor_log_us == old(self).anchor_log_us,
            !final(self).paused ==> final(self).anchor_wall_us == now_wall_us,
            !final(self).paused ==> final(self).anchor_log_us == (if old(self).current_idx
                < old(self).events@.len() {
                old(self).events@[old(self).current_idx as int].timestamp_us
            } else {
                old(self).anchor_log_us
            }),
    {
        self.paused = !self.paused;
        if !self.paused {
            self.anchor_wall_us = now_wall_us;
            if self.current_idx < self.events.len() {
                self.anchor_log_us = self.events[self.current_idx].timestamp_us;
            }
        }
    }

    /// Replays every event the virtual clock has reached: advances the
    /// cursor over the events whose timestamps are at most the current
    /// virtual time and returns them in recorded order. Does nothing while
    /// paused or finished; marks the replay finished once the cursor
    /// exhausts the log.
    #[verifier::loop_isolation(false)]
    pub fn poll_events(&mut self, now_wall_us: u64) -> (r: Vec<PingEvent>)
        requires
            old(self).wf(),
        ensures
            final(self).wf(),
            final(self).events@ == old(self).events@,
            final(self).speed_milli == old(self).speed_milli,
            final(self).paused == old(self).paused,
            final(self).anchor_wall_us == old(self).anchor_wall_us,
            final(self).anchor_log_us == old(self).anchor_log_us,
            old(self).paused || old(self).finished ==> *final(self) == *old(self) && r@.len()
                == 0,
            !old(self).paused && !old(self).finished ==> {
                let vt = virtual_time(
                    now_wall_us,
                    old(self).anchor_wall_us,
                    old(self).anchor_log_us,
                    old(self).speed_milli,
                );
                let c2 = cursor_after(old(self).events@, old(self).current_idx as int, vt);
                &&& final(self).current_idx == c2
                &&& r@.len() == c2 - old(self).current_idx
                &&& (forall|k: int|
                    0 <= k < r@.len() ==> event_eq(
                        #[trigger] r@[k],
                        old(self).events@[old(self).current_idx + k],
                    ))
                &&& (forall|k: int| 0 <= k < r@.len() ==> #[trigger] r@[k].timestamp_us <= vt)
                &&& final(self).finished == (c2 == old(self).events@.len())
            },
    {
        if self.paused || self.finished {
            return Vec::new();
        }
        let elapsed: u64 = if now_wall_us >= self.anchor_wall_us {
            now_wall_us - self.anchor_wall_us
        } else {
            0
        };
        proof {
            assert((elapsed as int) * (self.speed_milli as int) <= (u64::MAX as int)
                * 100000) by (nonlinear_arith)
                requires
                    0 <= elapsed <= u64::MAX,
                    0 <= self.speed_milli <= 100000,
            ;
        }
        let scaled: u128 = (elapsed as u128) * (self.speed_milli as u128) / 1000;
        let vt128: u128 = (self.anchor_log_us as u128) + scaled;
        let ghost vt = virtual_time(
            now_wall_us,
            self.anchor_wall_us,
            self.anchor_log_us,
            self.speed_milli,
        );
        proof {
            assert(vt128 as int == vt);
        }
        let ghost idx0 = self.current_idx as int;
        let mut out: Vec<PingEvent> = Vec::new();
        while self.current_idx < self.events.len() && (self.events[self.current_idx].timestamp_us
            as u128) <= vt128
            invariant
                idx0 <= self.current_idx as int <= self.events@.len(),
                self.events@ == old(self).events@,
                self.speed_milli == old(self).speed_milli,
                self.anchor_wall_us == old(self).anchor_wall_us,
                self.anchor_log_us == old(self).anchor_log_us,
                self.paused == old(self).paused,
                self.finished == old(self).finished,
                cursor_after(self.events@, self.current_idx as int, vt) == cursor_after(
                    self.events@,
                    idx0,
                    vt,
                ),
                out@.len() == self.current_idx as int - idx0,
                forall|k: int|
                    0 <= k < out@.len() ==> event_eq(#[trigger] out@[k], self.events@[idx0 + k]),
                forall|k: int| 0 <= k < out@.len() ==> #[trigger] out@[k].timestamp_us <= vt,
            decreases self.events@.len() - self.current_idx,
        {
            out.push(clone_event(&self.events[self.current_idx]));
            self.current_idx = self.current_idx + 1;
        }
        proof {
            assert(self.current_idx as int == cursor_after(self.events@, idx0, vt));
        }
        if self.current_idx >= self.events.len() {
            self.finished = true;
        }
        out
    }

    /// Skips forward by `count` events (never past the last event) and
    /// re-anchors the virtual clock at the cursor.
    pub fn skip_forward(&mut self, count: usize, now_wall_us: u64)
        requires
            old(self).wf(),
        ensures
            final(self).wf(),
            final(self).events@ == old(self).events@,
            final(self).speed_milli == old(self).speed_milli,
            final(self).paused == old(self).paused,
            final(self).finished == old(self).finished,
            final(self).anchor_wall_us == now_wall_us,
            ({
                let cap = if old(self).events@.len() == 0 {
                    0
                } else {
                    old(self).events@.len() - 1
                };
                &&& final(self).current_idx as int == (if old(self).current_idx + count <= cap {
                    old(self).current_idx + count
                } else {
                    cap
                })
                &&& final(self).anchor_log_us == (if final(self).current_idx
                    < old(self).events@.len() {
                    old(self).events@[final(self).current_idx as int].timestamp_us
                } else {
                    old(self).anchor_log_us
                })
            }),
    {
        let cap = if self.events.len() == 0 {
            0
        } else {
            self.events.len() - 1
        };
        self.current_idx = if self.current_idx >= cap {
            cap
        } else if count >= cap - self.current_idx {
            cap
        } else {
            self.current_idx + count
        };
        self.anchor_wall_us = now_wall_us;
        if self.current_idx < self.events.len() {
            self.anchor_log_us = self.events[self.current_idx].timestamp_us;
        }
    }

    /// Skips backward by `count` events, clears `finished`, and re-anchors
    /// the virtual clock at the cursor.
    pub fn skip_backward(&mut self, count: usize, now_wall_us: u64)
        requires
            old(self).wf(),
        ensures
            final(self).wf(),
            final(self).events@ == old(self).events@,
            final(self).speed_milli == old(self).speed_milli,
            final(self).paused == old(self).paused,
            !final(self).finished,
            final(self).anchor_wall_us == now_wall_us,
            final(self).current_idx as int == (if count <= old(self).current_idx {
                old(self).current_idx - count
            } else {
                0
            }),
            final(self).anchor_log_us == (if final(self).current_idx < old(self).events@.len() {
                old(self).events@[final(self).current_idx as int].timestamp_us
            } else {
                old(self).anchor_log_us
            }),
    {
        self.current_idx = if count <= self.current_idx {
            self.current_idx - count
        } else {
            0
        };
        self.finished = false;
        self.anchor_wall_us = now_wall_us;
        if self.current_idx < self.events.len() {
            self.anchor_log_us = self.events[self.current_idx].timestamp_us;
        }
    }

    /// Doubles the speed, up to the allowed greatest.
    pub fn speed_up(&mut self)
        requires
            old(self).wf(),
        ensures
            final(self).wf(),
            final(self).speed_milli as int == (if old(self).speed_milli * 2 <= MAX_SPEED_MILLI {
                old(self).speed_milli * 2
            } else {
                MAX_SPEED_MILLI as int
            }),
            final(self).events@ == old(self).events@,
            final(self).current_idx == old(self).current_idx,
            final(self).paused == old(self).paused,
            final(self).finished == old(self).finished,
            final(self).anchor_wall_us == old(self).anchor_wall_us,
            final(self).anchor_log_us == old(self).anchor_log_us,
    {
        let doubled = self.speed_milli * 2;
        self.speed_milli = if doubled > MAX_SPEED_MILLI {
            MAX_SPEED_MILLI
        } else {
            doubled
        };
    }

    /// Halves the speed, down to the allowed least.
    pub fn slow_down(&mut self)
        requires
            old(self).wf(),
        ensures
            final(self).wf(),
            final(self).speed_milli == (if old(self).speed_milli / 2 >= MIN_SPEED_MILLI {
                old(self).speed_milli / 2
            } else {
                MIN_SPEED_MILLI
            }),
            final(self).events@ == old(self).events@,
            final(self).current_idx == old(self).current_idx,
            final(self).paused == old(self).paused,
            final(self).finished == old(self).finished,
            final(self).anchor_wall_us == old(self).anchor_wall_us,
            final(self).anchor_log_us == old(self).anchor_log_us,
    {
        let halved = self.speed_milli / 2;
        self.speed_milli = if halved < MIN_SPEED_MILLI {
            MIN_SPEED_MILLI
        } else {
            halved
        };
    }

    /// Current speed in thousandths of real time.
    pub fn speed(&self) -> (s: u64)
        ensures
            s == self.speed_milli,
    {
        self.speed_milli
    }
}


/// The (name, address) pairs of a target list.
pub open spec fn pairs_of(ts: Seq<Target>) -> Seq<(Seq<char>, Seq<char>)> {
    ts.map(|i: int, t: Target| (t.name@, t.addr@))
}

/// Whether a (name, address) pair is already listed.
pub open spec fn pair_in(ps: Seq<(Seq<char>, Seq<char>)>, name: Seq<char>, addr: Seq<char>) -> bool {
    exists|j: int| 0 <= j < ps.len() && #[trigger] ps[j] == (name, addr)
}

/// The distinct (name, address) pairs of an event list, in first-seen order.
pub open spec fn first_seen_pairs(events: Seq<PingEvent>) -> Seq<(Seq<char>, Seq<char>)>
    decreases events.len(),
{
    if events.len() == 0 {
        Seq::empty()
    } else {
        let rest = first_seen_pairs(events.drop_last());
        let e = events.last();
        if pair_in(rest, e.target_name@, e.target_addr@) {
            rest
        } else {
            rest.push((e.target_name@, e.target_addr@))
        }
    }
}

/// Derives the target set of a replay from its events: one target per
/// distinct (name, address) pair, in first-seen order, each with fresh
/// statistics.
#[verifier::loop_isolation(false)]
pub fn build_replay_targets(events: &Vec<PingEvent>) -> (r: (Vec<Target>, Vec<TargetStats>))
    ensures
        pairs_of(r.0@) == first_seen_pairs(events@),
        r.1@.len() == r.0@.len(),
        forall|j: int|
            0 <= j < r.1@.len() ==> (#[trigger] r.1@[j]).wf() && r.1@[j].log@ == Seq::<
                PingResult,
            >::empty() && r.1@[j].sent == 0,
{
    let mut targets: Vec<Target> = Vec::new();
    let mut stats: Vec<TargetStats> = Vec::new();
    proof {
        assert(pairs_of(targets@) =~= first_seen_pairs(events@.subrange(0, 0)));
    }
    let mut i: usize = 0;
    while i < events.len()
        invariant
            i <= events@.len(),
            pairs_of(targets@) == first_seen_pairs(events@.subrange(0, i as int)),
            stats@.len() == targets@.len(),
            forall|j: int|
                0 <= j < stats@.len() ==> (#[trigger] stats@[j]).wf() && stats@[j].log@ == Seq::<
                    PingResult,
                >::empty() && stats@[j].sent == 0,
        decreases events@.len() - i,
    {
        let e = &events[i];
        let mut found = false;
        let mut j: usize = 0;
        while j < targets.len()
            invariant
                j <= targets@.len(),
                found == (exists|t: int|
                    0 <= t < j && (#[trigger] targets@[t].name@) == events@[i as int].target_name@
                        && targets@[t].addr@ == events@[i as int].target_addr@),
            decreases targets@.len() - j,
        {
            if targets[j].name == e.target_name && targets[j].addr == e.target_addr {
                found = true;
            }
            j = j + 1;
        }
        let ghost ts0 = targets@;
        proof {
            if found {
                let ghost ev = events@[i as int];
                let t = choose|t: int|
                    0 <= t < ts0.len() && (#[trigger] ts0[t].name@) == ev.target_name@
                        && ts0[t].addr@ == ev.target_addr@;
                assert(pairs_of(ts0)[t] == (ev.target_name@, ev.target_addr@));
            } else {
                let ghost ev = events@[i as int];
                assert forall|t: int| 0 <= t < pairs_of(ts0).len() implies #[trigger] pairs_of(
                    ts0,
                )[t] != (ev.target_name@, ev.target_addr@) by {
                    assert(pairs_of(ts0)[t] == (ts0[t].name@, ts0[t].addr@));
                }
            }
        }
        if !found {
            targets.push(Target { name: e.target_name.clone(), addr: e.target_addr.clone() });
            stats.push(TargetStats::new());
            proof {
                assert(pairs_of(targets@) =~= pairs_of(ts0).push(
                    (events@[i as int].target_name@, events@[i as int].target_addr@),
                ));
            }
        }
        i = i + 1;
        proof {
            assert(events@.subrange(0, i as int).drop_last() =~= events@.subrange(0, i - 1));
            assert(events@.subrange(0, i as int).last() == events@[i - 1]);
        }
    }
    proof {
        assert(events@.subrange(0, events@.len() as int) =~= events@);
    }
    (targets, stats)
}

/// Index of the first target whose address matches, scanning from the
/// front, or -1 when none does.
pub open spec fn first_addr_match(ts: Seq<Target>, addr: Seq<char>) -> int
    decreases ts.len(),
{
    if ts.len() == 0 {
        -1
    } else if ts[0].addr@ == addr {
        0
    } else {
        let r = first_addr_match(ts.drop_first(), addr);
        if r == -1 {
            -1
        } else {
            r + 1
        }
    }
}

pub proof fn lemma_first_addr_match(ts: Seq<Target>, addr: Seq<char>)
    ensures
        first_addr_match(ts, addr) == -1 ==> (forall|j: int|
            0 <= j < ts.len() ==> (#[trigger] ts[j]).addr@ != addr),
        first_addr_match(ts, addr) != -1 ==> {
            let m = first_addr_match(ts, addr);
            &&& 0 <= m < ts.len()
            &&& ts[m].addr@ == addr
            &&& (forall|j: int| 0 <= j < m ==> (#[trigger] ts[j]).addr@ != addr)
        },
    decreases ts.len(),
{
    if ts.len() > 0 && ts[0].addr@ != addr {
        lemma_first_addr_match(ts.drop_first(), addr);
        assert forall|j: int| 1 <= j < ts.len() implies ts.drop_first()[j - 1] == ts[j] by {}
    }
}

/// Applies one replayed event to the statistics of the first target whose
/// address matches the event's (a latency makes a success, none a timeout).
/// An event whose address no target carries is dropped, as is one for a
/// target whose lifetime counter has no room left.
#[verifier::loop_isolation(false)]
pub fn apply_event(event: &PingEvent, targets: &Vec<Target>, stats: &mut Vec<TargetStats>)
    requires
        old(stats)@.len() == targets@.len(),
        forall|j: int| 0 <= j < old(stats)@.len() ==> (#[trigger] old(stats)@[j]).wf(),
    ensures
        ({
            let m = first_addr_match(targets@, event.target_addr@);
            &&& (m == -1 ==> final(stats)@ == old(stats)@)
            &&& (m >= 0 && old(stats)@[m].sent == u64::MAX ==> final(stats)@ == old(stats)@)
            &&& (m >= 0 && old(stats)@[m].sent < u64::MAX ==> {
                &&& final(stats)@.len() == old(stats)@.len()
                &&& final(stats)@[m].wf()
                &&& final(stats)@[m].log@ == old(stats)@[m].log@.push(event_outcome(*event))
                &&& (forall|j: int|
                    0 <= j < old(stats)@.len() && j != m ==> final(stats)@[j] == old(stats)@[j])
            })
        }),
{
    proof {
        lemma_first_addr_match(targets@, event.target_addr@);
    }
    let ghost m = first_addr_match(targets@, event.target_addr@);
    let mut j: usize = 0;
    while j < targets.len()
        invariant
            j <= targets@.len(),
            stats@ == old(stats)@,
            forall|t: int| 0 <= t < j ==> (#[trigger] targets@[t]).addr@ != event.target_addr@,
        decreases targets@.len() - j,
    {
        if targets[j].addr == event.target_addr {
            proof {
                assert(m == j);
            }
            let result = match event.latency_us {
                Some(us) => PingResult::Success(us),
                None => PingResult::Timeout,
            };
            let mut st = stats.remove(j);
            if st.sent < u64::MAX {
                st.record(result);
                stats.insert(j, st);
                proof {
                    assert(stats@ =~= old(stats)@.update(j as int, stats@[j as int]));
                }
            } else {
                stats.insert(j, st);
                proof {
                    assert(stats@ =~= old(stats)@);
                }
            }
            return ;
        }
        j = j + 1;
    }
    proof {
        assert(m == -1);
    }
}

} // verus!
