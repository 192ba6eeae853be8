//! The per-command performance-metrics aggregator.
//!
//! One instance lives for the whole server: for each command kind it keeps
//! how many commands completed, the least and greatest processing time, and
//! the running total from which the mean is read. Durations are integer
//! microseconds, so every update is exact. The aggregator is the sole
//! mutator of this state; callers that share it across tasks put it behind
//! a mutual-exclusion lock and update it under that lock.

use vstd::arithmetic::div_mod::{lemma_div_is_ordered, lemma_div_multiples_vanish_fancy};
use vstd::arithmetic::mul::{lemma_mul_inequality, lemma_mul_is_commutative};
use vstd::prelude::*;

use crate::types::CommandKind;

verus! {

/// The statistics kept for one command kind.
#[derive(Clone, Copy, PartialEq, Eq, Structural, Debug)]
pub struct KindMetrics {
    /// How many commands of this kind have completed.
    pub count: u64,
    /// The least processing time observed, in microseconds.
    /// Meaningful only when `count > 0`.
    pub min_us: u64,
    /// The greatest processing time observed, in microseconds.
    /// Meaningful only when `count > 0`.
    pub max_us: u64,
    /// The sum of all processing times observed, in microseconds.
    pub total_us: u128,
}

impl KindMetrics {
    /// The statistics before any command of the kind completed.
    pub open spec fn zero() -> KindMetrics {
        KindMetrics { count: 0u64, min_us: 0u64, max_us: 0u64, total_us: 0u128 }
    }

    /// The internal invariant: the total lies between `count` times the
    /// least and `count` times the greatest observed duration.
    pub open spec fn wf(self) -> bool {
        &&& self.count == 0 ==> self == KindMetrics::zero()
        &&& self.count > 0 ==> {
            &&& self.min_us <= self.max_us
            &&& self.min_us * self.count <= self.total_us
            &&& self.total_us <= self.max_us * self.count
        }
    }

    /// The statistics after one more duration of `d` microseconds.
    pub open spec fn recorded(self, d: u64) -> KindMetrics {
        KindMetrics {
            count: (self.count + 1) as u64,
            min_us: if self.count == 0 || d < self.min_us {
                d
            } else {
                self.min_us
            },
            max_us: if self.count == 0 || d > self.max_us {
                d
            } else {
                self.max_us
            },
            total_us: (self.total_us + d) as u128,
        }
    }

    /// Folds one more observed duration into the statistics.
    fn record(&mut self, d: u64)
        requires
            old(self).wf(),
            old(self).count < u64::MAX,
        ensures
            *final(self) == old(self).recorded(d),
            final(self).wf(),
    {
        proof {
            let c = self.count as int;
            let t = self.total_us as int;
            let mx = self.max_us as int;
            if self.count > 0 {
                lemma_mul_inequality(mx, 0xffff_ffff_ffff_ffff, c);
                lemma_mul_is_commutative(0xffff_ffff_ffff_ffff, c);
                lemma_mul_inequality(c, 0xffff_ffff_ffff_fffe, 0xffff_ffff_ffff_ffff);
                assert(t <= 0xffff_ffff_ffff_fffe * 0xffff_ffff_ffff_ffff);
            }
        }
        if self.count == 0 {
            self.count = 1;
            self.min_us = d;
            self.max_us = d;
            self.total_us = d as u128;
        } else {
            proof {
                let c = self.count as int;
                let t = self.total_us as int;
                let mn = self.min_us as int;
                let mx = self.max_us as int;
                let nmin: int = if d < self.min_us {
                    d as int
                } else {
                    mn
                };
                let nmax: int = if d > self.max_us {
                    d as int
                } else {
                    mx
                };
                assert(nmin * (c + 1) <= t + d && t + d <= nmax * (c + 1)) by (nonlinear_arith)
                    requires
                        nmin <= mn,
                        nmin <= d,
                        mn * c <= t,
                        mx <= nmax,
                        d <= nmax,
                        t <= mx * c,
                        c >= 0,
                ;
            }
            self.count = self.count + 1;
            if d < self.min_us {
                self.min_us = d;
            }
            if d > self.max_us {
                self.max_us = d;
            }
            self.total_us = self.total_us + d as u128;
        }
    }
}

/// For each command kind: the count of completed commands and the least,
/// greatest, and total processing time in microseconds.
pub struct Metrics {
    /// Statistics of ping commands.
    pub ping: KindMetrics,
    /// Statistics of echo commands.
    pub echo: KindMetrics,
    /// Statistics of time commands.
    pub time: KindMetrics,
    /// Statistics of calculator commands.
    pub calculate: KindMetrics,
    /// Statistics of batch commands.
    pub batch: KindMetrics,
}

/// The statistics a metrics store keeps for one command kind.
pub open spec fn spec_stats(m: Metrics, k: CommandKind) -> KindMetrics {
    match k {
        CommandKind::Ping => m.ping,
        CommandKind::Echo => m.echo,
        CommandKind::Time => m.time,
        CommandKind::Calculate => m.calculate,
        CommandKind::Batch => m.batch,
    }
}

impl Metrics {
    /// The internal invariant: each kind's statistics are well formed.
    pub open spec fn wf(self) -> bool {
        &&& self.ping.wf()
        &&& self.echo.wf()
        &&& self.time.wf()
        &&& self.calculate.wf()
        &&& self.batch.wf()
    }

    /// A fresh store with every counter at zero.
    pub fn new() -> (r: Metrics)
        ensures
            forall|k: CommandKind| #[trigger] spec_stats(r, k) == KindMetrics::zero(),
            r.wf(),
    {
        Metrics {
            ping: KindMetrics { count: 0, min_us: 0, max_us: 0, total_us: 0 },
            echo: KindMetrics { count: 0, min_us: 0, max_us: 0, total_us: 0 },
            time: KindMetrics { count: 0, min_us: 0, max_us: 0, total_us: 0 },
            calculate: KindMetrics { count: 0, min_us: 0, max_us: 0, total_us: 0 },
            batch: KindMetrics { count: 0, min_us: 0, max_us: 0, total_us: 0 },
        }
    }

    /// Folds one completed command into the store: the kind's count grows
    /// by one, its least and greatest times widen to take `duration_us` in,
    /// and the duration joins the kind's total; other kinds are untouched.
    pub fn update(&mut self, command_kind: CommandKind, duration_us: u64)
        requires
            old(self).wf(),
            spec_stats(*old(self), command_kind).count < u64::MAX,
        ensures
            final(self).wf(),
            spec_stats(*final(self), command_kind) == spec_stats(*old(self), command_kind)
                .recorded(duration_us),
            forall|k: CommandKind|
                k != command_kind ==> #[trigger] spec_stats(*final(self), k) == spec_stats(
                    *old(self),
                    k,
                ),
    {
        match command_kind {
            CommandKind::Ping => self.ping.record(duration_us),
            CommandKind::Echo => self.echo.record(duration_us),
            CommandKind::Time => self.time.record(duration_us),
            CommandKind::Calculate => self.calculate.record(duration_us),
            CommandKind::Batch => self.batch.record(duration_us),
        }
    }

    /// A point-in-time snapshot of one kind's statistics.
    pub fn stats(&self, kind: CommandKind) -> (r: KindMetrics)
        ensures
            r == spec_stats(*self, kind),
    {
        match kind {
            CommandKind::Ping => self.ping,
            CommandKind::Echo => self.echo,
            CommandKind::Time => self.time,
            CommandKind::Calculate => self.calculate,
            CommandKind::Batch => self.batch,
        }
    }

    /// The mean processing time of a kind in microseconds, rounded down,
    /// or `None` before the first command of the kind completed. The mean
    /// lies between the kind's least and greatest observed time.
    pub fn average_us(&self, kind: CommandKind) -> (r: Option<u64>)
        requires
            self.wf(),
        ensures
            match r {
                Some(avg) => {
                    let s = spec_stats(*self, kind);
                    &&& s.count > 0
                    &&& avg == s.total_us as int / s.count as int
                    &&& s.min_us <= avg <= s.max_us
                },
                None => spec_stats(*self, kind).count == 0,
            },
    {
        let s = self.stats(kind);
        if s.count == 0 {
            None
        } else {
            proof {
                lemma_kind_metrics_avg_bounds(s);
            }
            Some((s.total_us / (s.count as u128)) as u64)
        }
    }
}

/// The mean observed duration of a command kind never leaves the interval
/// between the least and the greatest observed duration.
pub proof fn lemma_kind_metrics_avg_bounds(s: KindMetrics)
    requires
        s.wf(),
        s.count > 0,
    ensures
        s.min_us <= s.total_us as int / s.count as int <= s.max_us,
{
    let c = s.count as int;
    let t = s.total_us as int;
    let mn = s.min_us as int;
    let mx = s.max_us as int;
    lemma_div_is_ordered(mn * c, t, c);
    lemma_div_is_ordered(t, mx * c, c);
    lemma_mul_is_commutative(mn, c);
    lemma_mul_is_commutative(mx, c);
    lemma_div_multiples_vanish_fancy(mn, 0, c);
    lemma_div_multiples_vanish_fancy(mx, 0, c);
}

impl Default for Metrics {
    /// A fresh store with every counter at zero.
    fn default() -> (r: Metrics)
        ensures
            forall|k: CommandKind| #[trigger] spec_stats(r, k) == KindMetrics::zero(),
            r.wf(),
    {
        Metrics::new()
    }
}

} // verus!
