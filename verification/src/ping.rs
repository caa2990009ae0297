use vstd::prelude::*;

verus! {

use crate::stats::PingResult;
use crate::text::{contains_seq, str_contains};

/// Message sent from a probe worker to the consumer: which target the
/// outcome belongs to, and the outcome itself.
#[derive(Debug)]
pub struct PingUpdate {
    pub target_idx: usize,
    pub result: PingResult,
}

/// The lower-case folding of a string, as `str::to_lowercase` computes it.
pub uninterp spec fn lower_of(s: Seq<char>) -> Seq<char>;

/// Relies on str::to_lowercase: the result depends on the characters alone.
#[verifier::external_body]
fn to_lowercase_str(s: &str) -> (r: String)
    ensures
        r@ == lower_of(s@),
{
    s.to_lowercase()
}

/// The message patterns that mark a stale network session.
pub open spec fn network_error_in(low: Seq<char>) -> bool {
    ||| contains_seq(low, "network is unreachable"@)
    ||| contains_seq(low, "no route to host"@)
    ||| contains_seq(low, "network unreachable"@)
    ||| contains_seq(low, "host unreachable"@)
    ||| contains_seq(low, "invalid argument"@)
    ||| contains_seq(low, "bad file descriptor"@)
    ||| contains_seq(low, "socket"@)
}

/// Whether an error message, folded to lower case, indicates a stale
/// network session that should be rebuilt.
pub fn is_network_error(err: &str) -> (r: bool)
    ensures
        r == network_error_in(lower_of(err@)),
{
    let low = to_lowercase_str(err);
    let l = low.as_str();
    str_contains(l, "network is unreachable") || str_contains(l, "no route to host")
        || str_contains(l, "network unreachable") || str_contains(l, "host unreachable")
        || str_contains(l, "invalid argument") || str_contains(l, "bad file descriptor")
        || str_contains(l, "socket")
}

/// Number of consecutive network-class errors after which the worker
/// discards its session and builds a new one.
pub const ERRORS_BEFORE_REBUILD: u32 = 3;

/// Decision state of one probe worker: everything the worker's loop decides
/// is a function of this state and the event that just happened; the
/// surrounding loop only performs the network calls and the waiting.
pub struct PingerState {
    /// Probe sequence number, wrapping at 16 bits.
    pub seq_num: u16,
    /// Consecutive network-class errors since the last success or timeout.
    pub consecutive_errors: u32,
    /// Whether a usable network session is at hand.
    pub has_client: bool,
}

impl PingerState {
    pub fn new() -> (s: Self)
        ensures
            s.seq_num == 0,
            s.consecutive_errors == 0,
            !s.has_client,
    {
        PingerState { seq_num: 0, consecutive_errors: 0, has_client: false }
    }

    /// A session must be (re)built before the next probe.
    pub fn needs_client(&self) -> (r: bool)
        ensures
            r == !self.has_client,
    {
        !self.has_client
    }

    /// A fresh session was built: the error run is over.
    pub fn on_client_created(&mut self)
        ensures
            final(self).has_client,
            final(self).consecutive_errors == 0,
            final(self).seq_num == old(self).seq_num,
    {
        self.has_client = true;
        self.consecutive_errors = 0;
    }

    /// A probe was answered in time: the error run is over.
    pub fn on_ping_success(&mut self, latency_us: u64) -> (r: PingResult)
        ensures
            r == PingResult::Success(latency_us),
            final(self).consecutive_errors == 0,
            final(self).has_client == old(self).has_client,
            final(self).seq_num == old(self).seq_num,
    {
        self.consecutive_errors = 0;
        PingResult::Success(latency_us)
    }

    /// Classifies a failed probe by its error message: a timeout ends the
    /// error run; any other error lengthens it, and once a network-class
    /// error has run `ERRORS_BEFORE_REBUILD` long, the session is dropped
    /// so the next tick rebuilds it.
    pub fn on_ping_error(&mut self, err: String) -> (r: PingResult)
        ensures
            final(self).seq_num == old(self).seq_num,
            contains_seq(err@, "timeout"@) ==> {
                &&& r == PingResult::Timeout
                &&& final(self).consecutive_errors == 0
                &&& final(self).has_client == old(self).has_client
            },
            !contains_seq(err@, "timeout"@) ==> {
                &&& r == PingResult::Error(err)
                &&& final(self).consecutive_errors as int == (if old(self).consecutive_errors
                    < u32::MAX {
                    old(self).consecutive_errors + 1
                } else {
                    u32::MAX as int
                })
                &&& final(self).has_client == (old(self).has_client && !(network_error_in(
                    lower_of(err@),
                ) && final(self).consecutive_errors >= ERRORS_BEFORE_REBUILD))
            },
    {
        if str_contains(err.as_str(), "timeout") {
            self.consecutive_errors = 0;
            PingResult::Timeout
        } else {
            if self.consecutive_errors < u32::MAX {
                self.consecutive_errors = self.consecutive_errors + 1;
            }
            if is_network_error(err.as_str()) && self.consecutive_errors >= ERRORS_BEFORE_REBUILD {
                self.has_client = false;
            }
            PingResult::Error(err)
        }
    }

    /// Hands out the sequence number for the next probe and advances it,
    /// wrapping at 16 bits.
    pub fn next_seq(&mut self) -> (s: u16)
        ensures
            s == old(self).seq_num,
            final(self).seq_num as int == (old(self).seq_num as int + 1) % 0x10000,
            final(self).consecutive_errors == old(self).consecutive_errors,
            final(self).has_client == old(self).has_client,
    {
        let s = self.seq_num;
        if self.seq_num == u16::MAX {
            self.seq_num = 0;
        } else {
            self.seq_num = self.seq_num + 1;
        }
        s
    }
}

} // verus!
