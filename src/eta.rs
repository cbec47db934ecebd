//! Throughput and time-remaining estimates over a sliding window of the most
//! recent completion times.
use vstd::prelude::*;

use crate::text::{decimal, push_decimal};
use vstd::string::StringExecFns;

verus! {

/// How many completion times the window keeps.
pub const BACKLOG_LEN: usize = 200;

/// An estimate needs at least this many completion times.
pub const WARMUP: usize = 20;

/// A fixed-size window of completion times (milliseconds on one clock):
/// `end` is the slot written last, `len` how many slots hold a time.
pub struct Eta {
    queue: Vec<u64>,
    end: usize,
    len: usize,
}

/// An estimated duration in milliseconds, or none.
#[derive(Clone, Copy, Debug)]
pub struct TimeEstimate(pub Option<u64>);

/// The estimate that a window of samples gives for `remaining` units: none
/// with fewer than `WARMUP` samples, else the time per unit over the window (newest minus
/// oldest, over the number of samples) times `remaining`, capped to `u64`.
pub open spec fn estimate_of(samples: Seq<u64>, remaining: nat) -> Option<u64> {
    if samples.len() < WARMUP {
        None
    } else {
        let span = if samples.last() >= samples[0] {
            (samples.last() - samples[0]) as nat
        } else {
            0nat
        };
        let ms = span * remaining / samples.len();
        Some(
            if ms > u64::MAX {
                u64::MAX
            } else {
                ms as u64
            },
        )
    }
}

/// The samples lie `delta` apart, one after the other.
pub open spec fn evenly_spaced(samples: Seq<u64>, delta: nat) -> bool {
    forall|i: int| 0 <= i < samples.len() - 1 ==> samples[i + 1] == #[trigger] samples[i] + delta
}

proof fn lemma_span(samples: Seq<u64>, delta: nat, k: int)
    requires
        evenly_spaced(samples, delta),
        0 <= k < samples.len(),
    ensures
        samples[k] == samples[0] + k * delta,
    decreases k,
{
    if k > 0 {
        lemma_span(samples, delta, k - 1);
        assert(samples[k] == samples[k - 1] + delta);
        assert(k * delta == (k - 1) * delta + delta) by (nonlinear_arith);
    }
}

/// Unknown before warm-up; after it, with completions `delta` apart, the
/// estimate for `n` units is at most `n * delta` and falls short of it by
/// no more than `n * delta / len + 1`, `len` being the number of samples.
pub proof fn lemma_estimate_uniform(samples: Seq<u64>, delta: nat, n: nat)
    requires
        evenly_spaced(samples, delta),
        samples.len() > 0,
        (samples.len() - 1) * delta * n <= u64::MAX,
    ensures
        samples.len() < WARMUP ==> estimate_of(samples, n) is None,
        samples.len() >= WARMUP ==> {
            let e = estimate_of(samples, n)->Some_0 as nat;
            &&& e <= n * delta
            &&& n * delta <= e + n * delta / samples.len() + 1
        },
{
    let len = samples.len();
    if len >= WARMUP {
        lemma_span(samples, delta, len - 1);
        let span = ((len - 1) * delta) as nat;
        assert(samples.last() - samples[0] == span);
        let ms = span * n / len;
        assert(span * n == (len - 1) * delta * n) by (nonlinear_arith)
            requires span == (len - 1) * delta;
        assert(ms <= u64::MAX) by (nonlinear_arith)
            requires ms == span * n / len, span * n <= u64::MAX, len > 0;
        let nd = n * delta;
        assert(span * n + nd == len * nd) by (nonlinear_arith)
            requires span == (len - 1) * delta, nd == n * delta;
        assert(ms <= nd && nd <= ms + nd / len + 1) by (nonlinear_arith)
            requires ms == span * n / len, span * n + nd == len * nd, len > 0;
    }
}

impl Eta {
    /// Where the oldest sample lies.
    pub closed spec fn first(&self) -> int {
        if self.len == BACKLOG_LEN {
            (self.end + 1) % (BACKLOG_LEN as int)
        } else {
            0
        }
    }

    /// The recorded completion times, oldest first.
    pub closed spec fn samples(&self) -> Seq<u64> {
        Seq::new(
            self.len as nat,
            |i: int| self.queue@[(self.first() + i) % (BACKLOG_LEN as int)],
        )
    }

    pub closed spec fn wf(&self) -> bool {
        &&& self.queue@.len() == BACKLOG_LEN
        &&& self.end < BACKLOG_LEN
        &&& self.len <= BACKLOG_LEN
        &&& self.len < BACKLOG_LEN ==> (self.end + 1) % (BACKLOG_LEN as int) == self.len
        &&& forall|i: int| self.len <= i < BACKLOG_LEN ==> self.queue@[i] == 0
    }

    /// An empty window.
    pub fn new() -> (r: Eta)
        ensures
            r.wf(),
            r.samples().len() == 0,
    {
        Eta { queue: vec![0u64; BACKLOG_LEN], end: BACKLOG_LEN - 1, len: 0 }
    }

    /// Records that a unit of work completed at `now`; the oldest time leaves
    /// once the window is full.
    pub fn tick(&mut self, now: u64)
        requires
            old(self).wf(),
        ensures
            final(self).wf(),
            final(self).samples() == if old(self).samples().len() < BACKLOG_LEN {
                old(self).samples().push(now)
            } else {
                old(self).samples().drop_first().push(now)
            },
    {
        let ghost before = self.samples();
        let ghost old_first = self.first();
        self.end = (self.end + 1) % BACKLOG_LEN;
        self.queue.set(self.end, now);
        if self.len < BACKLOG_LEN {
            self.len = self.len + 1;
        }
        proof {
            assert forall|i: int| self.len <= i < BACKLOG_LEN implies self.queue@[i] == 0 by {
                assert(i != self.end);
            }
            let cap = BACKLOG_LEN as int;
            if before.len() < BACKLOG_LEN {
                assert(self.first() == 0);
                assert forall|i: int| 0 <= i < before.len() implies self.samples()[i] == before[i] by {
                    assert((old_first + i) % cap == i);
                    assert(i as int % cap == i as int);
                }
                assert(self.samples() =~= before.push(now));
            } else {
                let e = self.end as int;
                assert(old_first == e);
                assert forall|i: int| 0 <= i < cap - 1 implies self.samples()[i] == before[i + 1] by {
                    assert((e + 1 + i) % cap != e);
                    assert(((self.end + 1) % cap + i) % cap == (e + 1 + i) % cap);
                    assert((old_first + (i + 1)) % cap == (e + 1 + i) % cap);
                }
                assert(((self.end + 1) % cap + (cap - 1)) % cap == e);
                assert(self.samples() =~= before.drop_first().push(now));
            }
        }
    }

    /// The estimated time for `remaining` more units.
    pub fn estimate(&self, remaining: usize) -> (r: TimeEstimate)
        requires
            self.wf(),
        ensures
            r.0 == estimate_of(self.samples(), remaining as nat),
    {
        TimeEstimate(self.estimate_(remaining))
    }

    /// The slot `idx` places after the slot written last, wrapping around: in a
    /// full window the sample `idx` (modulo the window size) from the oldest; in
    /// one not yet full a sample where the slot holds one, else zero.
    pub fn get(&self, idx: usize) -> (r: u64)
        requires
            self.wf(),
        ensures
            ({
                let n = self.samples().len();
                let k = if n == BACKLOG_LEN {
                    idx as int % (BACKLOG_LEN as int)
                } else {
                    (n + idx) % (BACKLOG_LEN as int)
                };
                r == if k < n {
                    self.samples()[k]
                } else {
                    0
                }
            }),
    {
        let i = ((self.end + 1) % BACKLOG_LEN + idx % BACKLOG_LEN) % BACKLOG_LEN;
        proof {
            let cap = BACKLOG_LEN as int;
            if self.len < BACKLOG_LEN {
                vstd::arithmetic::div_mod::lemma_add_mod_noop_right(self.len as int, idx as int, cap);
            }
        }
        self.queue[i]
    }

    fn estimate_(&self, remaining: usize) -> (r: Option<u64>)
        requires
            self.wf(),
        ensures
            r == estimate_of(self.samples(), remaining as nat),
    {
        if self.len < WARMUP {
            return None;
        }
        let last = self.queue[self.end];
        let first_idx = if self.len == BACKLOG_LEN {
            (self.end + 1) % BACKLOG_LEN
        } else {
            0
        };
        let first = self.queue[first_idx];
        proof {
            let s = self.samples();
            let cap = BACKLOG_LEN as int;
            assert(s[0] == first);
            if self.len == BACKLOG_LEN {
                assert((self.first() + (s.len() - 1)) % cap == self.end as int);
            } else {
                assert((s.len() - 1) % cap == self.end as int);
            }
            assert(s.last() == last);
        }
        let span: u64 = if last >= first {
            last - first
        } else {
            0
        };
        proof {
            assert((span as int) * (remaining as int) <= (u64::MAX as int) * (u64::MAX as int)) by (nonlinear_arith)
                requires span <= u64::MAX, remaining <= u64::MAX;
        }
        let ms: u128 = (span as u128) * (remaining as u128) / (self.len as u128);
        if ms > u64::MAX as u128 {
            Some(u64::MAX)
        } else {
            Some(ms as u64)
        }
    }
}

/// The text of an estimate in whole seconds: `NhMmSs`, `MmSs` or `Ss`
/// (hours and minutes only where non-zero), or `N/A` without estimate.
pub open spec fn estimate_text(e: Option<u64>) -> Seq<char> {
    match e {
        None => "N/A"@,
        Some(ms) => {
            let secs = ms as nat / 1000;
            let hours = secs / 3600;
            let minutes = secs % 3600 / 60;
            let s = secs % 60;
            if hours > 0 {
                decimal(hours) + "h"@ + decimal(minutes) + "m"@ + decimal(s) + "s"@
            } else if minutes > 0 {
                decimal(minutes) + "m"@ + decimal(s) + "s"@
            } else {
                decimal(s) + "s"@
            }
        },
    }
}

impl TimeEstimate {
    pub fn new(millis: u64) -> (r: TimeEstimate)
        ensures
            r.0 == Some(millis),
    {
        TimeEstimate(Some(millis))
    }

    /// The estimate in whole seconds.
    pub fn as_seconds(&self) -> (r: Option<u64>)
        ensures
            r == match self.0 {
                Some(ms) => Some(ms / 1000),
                None => None,
            },
    {
        match self.0 {
            Some(ms) => Some(ms / 1000),
            None => None,
        }
    }

    /// The estimate as text, as shown in progress reports.
    pub fn describe(&self) -> (r: String)
        ensures
            r@ == estimate_text(self.0),
    {
        match self.0 {
            None => String::from_str("N/A"),
            Some(ms) => {
                let secs = ms / 1000;
                let hours = secs / 3600;
                let minutes = secs % 3600 / 60;
                let s = secs % 60;
                let mut out = String::new();
                if hours > 0 {
                    push_decimal(&mut out, hours);
                    out.append("h");
                    push_decimal(&mut out, minutes);
                    out.append("m");
                } else if minutes > 0 {
                    push_decimal(&mut out, minutes);
                    out.append("m");
                }
                push_decimal(&mut out, s);
                out.append("s");
                proof {
                    assert(out@ =~= estimate_text(self.0));
                }
                out
            },
        }
    }
}

} // verus!
