use vstd::prelude::*;

verus! {

use crate::ping::PingUpdate;
use crate::samples::{average_of, seq_min, seq_max};
use crate::stats::{
    TargetStats, PingResult, loss_hundredths, jitter_of, grade_of,
};
use crate::target::Target;

/// How long the coordinator waits between two summary snapshots, in
/// microseconds of wall-clock time.
pub const SUMMARY_INTERVAL_US: u64 = 60000000;

/// Whether a summary snapshot is due: a full interval has passed since the
/// last one.
pub fn summary_due(last_summary_us: u64, now_us: u64) -> (r: bool)
    ensures
        r == (now_us >= last_summary_us && now_us - last_summary_us >= SUMMARY_INTERVAL_US),
{
    now_us >= last_summary_us && now_us - last_summary_us >= SUMMARY_INTERVAL_US
}

/// How many raw events are written between two flushes of the event log.
pub const RAW_FLUSH_INTERVAL: u64 = 50;

/// Whether the raw event log is flushed after the event just written:
/// after every `RAW_FLUSH_INTERVAL`-th event.
pub fn raw_flush_due(event_count: u64) -> (r: bool)
    ensures
        r == (event_count % RAW_FLUSH_INTERVAL == 0),
{
    event_count % RAW_FLUSH_INTERVAL == 0
}

/// Folds one probe outcome into the statistics of the target it belongs
/// to. An update carrying an out-of-range index is dropped, as is one for
/// a target whose lifetime counter has no room left.
pub fn apply_update(stats: &mut Vec<TargetStats>, update: PingUpdate)
    requires
        forall|j: int| 0 <= j < old(stats)@.len() ==> (#[trigger] old(stats)@[j]).wf(),
    ensures
        update.target_idx >= old(stats)@.len() ==> final(stats)@ == old(stats)@,
        update.target_idx < old(stats)@.len() && old(stats)@[update.target_idx as int].sent
            == u64::MAX ==> final(stats)@ == old(stats)@,
        update.target_idx < old(stats)@.len() && old(stats)@[update.target_idx as int].sent
            < u64::MAX ==> {
            let m = update.target_idx as int;
            &&& final(stats)@.len() == old(stats)@.len()
            &&& final(stats)@[m].wf()
            &&& final(stats)@[m].log@ == old(stats)@[m].log@.push(update.result)
            &&& (forall|j: int|
                0 <= j < old(stats)@.len() && j != m ==> final(stats)@[j] == old(stats)@[j])
        },
{
    let idx = update.target_idx;
    if idx < stats.len() {
        let mut st = stats.remove(idx);
        if st.sent < u64::MAX {
            st.record(update.result);
            stats.insert(idx, st);
            proof {
                assert(stats@ =~= old(stats)@.update(idx as int, stats@[idx as int]));
            }
        } else {
            stats.insert(idx, st);
            proof {
                assert(stats@ =~= old(stats)@);
            }
        }
    }
}

/// Latency distribution of one target, all in microseconds: exact least,
/// mean and greatest; approximate (sketch-backed) median and 95th
/// percentile.
#[derive(Debug)]
pub struct LatencySummary {
    pub min: Option<u64>,
    pub avg: Option<u64>,
    pub p50: Option<u64>,
    pub p95: Option<u64>,
    pub max: Option<u64>,
}

/// Everything the session summary records of one target. Latencies are in
/// microseconds, loss in hundredths of a percent, MOS in thousandths.
#[derive(Debug)]
pub struct TargetSummary {
    pub name: String,
    pub addr: String,
    pub sent: u64,
    pub received: u64,
    pub loss_pct: u64,
    pub latency_us: LatencySummary,
    pub jitter_us: Option<u64>,
    pub mos: Option<u64>,
    pub quality_grade: Option<&'static str>,
}

/// A full session summary: when the session ran and one record per target.
#[derive(Debug)]
pub struct SessionSummary {
    pub started_us: u64,
    pub ended_us: u64,
    pub duration_secs: u64,
    pub targets: Vec<TargetSummary>,
}

/// What it means for a summary record to report a target's statistics.
pub open spec fn summary_matches(s: TargetSummary, t: Target, st: TargetStats) -> bool {
    &&& s.name@ == t.name@
    &&& s.addr@ == t.addr@
    &&& s.sent == st.sent
    &&& s.received == st.received
    &&& s.loss_pct as int == loss_hundredths(st.sent as int, st.received as int)
    &&& s.latency_us.min == st.all_time.min
    &&& s.latency_us.max == st.all_time.max
    &&& s.latency_us.avg == average_of(st.all_time.samples@)
    &&& ((s.latency_us.p50 is None) == (st.all_time.samples@.len() == 0))
    &&& ((s.latency_us.p95 is None) == (st.all_time.samples@.len() == 0))
    &&& (st.all_time.samples@.len() > 0 ==> (s.latency_us.p50 matches Some(q) && seq_min(
        st.all_time.samples@,
    ) <= q <= seq_max(st.all_time.samples@)))
    &&& (st.all_time.samples@.len() > 0 ==> (s.latency_us.p95 matches Some(q) && seq_min(
        st.all_time.samples@,
    ) <= q <= seq_max(st.all_time.samples@)))
    &&& s.jitter_us == jitter_of(st.log@)
    &&& s.mos == st.mos_of()
    &&& s.quality_grade == (match st.mos_of() {
        None => None::<&'static str>,
        Some(m) => Some(grade_of(m as int).0),
    })
}

/// The readings of two statistics values agree: everything an observer or
/// a summary can see. (Compacting the quantile sketch changes none of it.)
pub open spec fn same_readings(a: TargetStats, b: TargetStats) -> bool {
    &&& a.log@ == b.log@
    &&& a.history@ == b.history@
    &&& a.sent == b.sent
    &&& a.received == b.received
    &&& a.current_streak == b.current_streak
    &&& a.longest_streak == b.longest_streak
    &&& a.prev_latency == b.prev_latency
    &&& a.jitter_sum == b.jitter_sum
    &&& a.jitter_count == b.jitter_count
    &&& a.all_time.min == b.all_time.min
    &&& a.all_time.max == b.all_time.max
    &&& a.all_time.sum == b.all_time.sum
    &&& a.all_time.count == b.all_time.count
    &&& a.all_time.samples@ == b.all_time.samples@
}

/// Builds the summary record of one target. Querying the sketch compacts
/// its pending buffer, which changes no reading.
pub fn summarize_target(target: &Target, stats: &mut TargetStats) -> (r: TargetSummary)
    requires
        old(stats).wf(),
    ensures
        final(stats).wf(),
        same_readings(*final(stats), *old(stats)),
        summary_matches(r, *target, *old(stats)),
{
    let name = target.name.clone();
    let addr = target.addr.clone();
    let sent = stats.sent;
    let received = stats.received;
    let loss_pct = stats.packet_loss();
    let min = stats.all_time.min;
    let max = stats.all_time.max;
    let avg = stats.all_time.average();
    let p50 = stats.all_time.p50();
    let p95 = stats.all_time.p95();
    let jitter_us = stats.jitter();
    let mos = stats.mos_score();
    let quality_grade = match stats.quality_grade() {
        None => None,
        Some((g, _)) => Some(g),
    };
    TargetSummary {
        name,
        addr,
        sent,
        received,
        loss_pct,
        latency_us: LatencySummary { min, avg, p50, p95, max },
        jitter_us,
        mos,
        quality_grade,
    }
}

/// Builds the full session summary: the session's span and one record per
/// target, in target order.
#[verifier::loop_isolation(false)]
pub fn build_session_summary(
    targets: &Vec<Target>,
    stats: &mut Vec<TargetStats>,
    started_us: u64,
    ended_us: u64,
) -> (r: SessionSummary)
    requires
        old(stats)@.len() == targets@.len(),
        forall|j: int| 0 <= j < old(stats)@.len() ==> (#[trigger] old(stats)@[j]).wf(),
    ensures
        final(stats)@.len() == old(stats)@.len(),
        forall|j: int|
            0 <= j < final(stats)@.len() ==> (#[trigger] final(stats)@[j]).wf() && same_readings(
                final(stats)@[j],
                old(stats)@[j],
            ),
        r.started_us == started_us,
        r.ended_us == ended_us,
        r.duration_secs as int == (if ended_us >= started_us {
            (ended_us - started_us) / 1000000
        } else {
            0
        }),
        r.targets@.len() == targets@.len(),
        forall|j: int|
            0 <= j < r.targets@.len() ==> summary_matches(
                #[trigger] r.targets@[j],
                targets@[j],
                old(stats)@[j],
            ),
{
    let mut out: Vec<TargetSummary> = Vec::new();
    let mut j: usize = 0;
    while j < targets.len()
        invariant
            j <= targets@.len(),
            stats@.len() == targets@.len(),
            out@.len() == j,
            forall|k: int|
                0 <= k < stats@.len() ==> (#[trigger] stats@[k]).wf() && same_readings(
                    stats@[k],
                    old(stats)@[k],
                ),
            forall|k: int|
                0 <= k < j ==> summary_matches(#[trigger] out@[k], targets@[k], old(stats)@[k]),
        decreases targets@.len() - j,
    {
        let ghost pre = stats@;
        let mut st = stats.remove(j);
        let ts = summarize_target(&targets[j], &mut st);
        stats.insert(j, st);
        out.push(ts);
        proof {
            assert(stats@ =~= pre.update(j as int, stats@[j as int]));
            assert(summary_matches(ts, targets@[j as int], pre[j as int]));
            assert(summary_matches(ts, targets@[j as int], old(stats)@[j as int]));
        }
        j = j + 1;
    }
    let duration_secs = if ended_us >= started_us {
        (ended_us - started_us) / 1000000
    } else {
        0
    };
    SessionSummary { started_us, ended_us, duration_secs, targets: out }
}

} // verus!
