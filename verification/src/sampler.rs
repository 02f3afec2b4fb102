//! The state kept between two samples of the CPU, and what one sample makes of it.
use vstd::prelude::*;
use std::collections::HashMap;

use crate::proc_stat::{
    busy_ticks, counters_advance, sat_sub, times_fit, total_ticks, zero_times, CpuTimes, UsageDelta,
};
use crate::process::{
    account_processes, entry_key, entry_matches, rank_processes, ranking, recorded_ticks,
    sample_fits, ProcessEntry, ProcessSample,
};

verus! {

broadcast use vstd::std_specs::hash::group_hash_axioms;

/// The readings of the previous sample.
pub struct CpuState {
    aggregate: CpuTimes,
    per_core: Vec<CpuTimes>,
    per_pid: HashMap<u32, u64>,
    have_baseline: bool,
}

/// All readings fit the arithmetic done on them.
pub open spec fn all_fit(ts: Seq<CpuTimes>) -> bool {
    forall|i: int| 0 <= i < ts.len() ==> times_fit(#[trigger] ts[i])
}

/// The usage of one core: against its previous reading, or against zero where there was
/// none.
pub open spec fn core_delta(prev: Seq<CpuTimes>, now: CpuTimes, i: int) -> UsageDelta {
    let p = if i < prev.len() {
        prev[i]
    } else {
        zero_times()
    };
    UsageDelta {
        busy: sat_sub(busy_ticks(now), busy_ticks(p)) as u64,
        total: sat_sub(total_ticks(now), total_ticks(p)) as u64,
    }
}

/// What one sample gives.
pub struct CpuSample {
    /// Ticks that passed on the whole CPU.
    pub usage: UsageDelta,
    /// Ticks that passed on each core.
    pub per_core: Vec<UsageDelta>,
    /// The busiest processes, busiest first.
    pub processes: Vec<ProcessEntry>,
    /// Number of cores read (their count taken as a `u32`, `usize as u32`).
    pub logical_cores: u32,
}

impl CpuState {
    #[verifier::type_invariant]
    spec fn readings_fit(self) -> bool {
        &&& times_fit(self.aggregate)
        &&& all_fit(self.per_core@)
    }

    /// The previous aggregate reading.
    pub closed spec fn aggregate(self) -> CpuTimes {
        self.aggregate
    }

    /// The previous per-core readings.
    pub closed spec fn per_core(self) -> Seq<CpuTimes> {
        self.per_core@
    }

    /// The ticks recorded for each process at the previous sample.
    pub closed spec fn per_pid(self) -> Map<u32, u64> {
        self.per_pid@
    }

    /// Whether a sample has been taken.
    pub closed spec fn have_baseline(self) -> bool {
        self.have_baseline
    }

    /// A state with no readings: all counters zero.
    pub fn new() -> (r: CpuState)
        ensures
            r.aggregate() == zero_times(),
            r.per_core() == Seq::<CpuTimes>::empty(),
            r.per_pid() == Map::<u32, u64>::empty(),
            !r.have_baseline(),
    {
        CpuState {
            aggregate: CpuTimes::default(),
            per_core: Vec::new(),
            per_pid: HashMap::new(),
            have_baseline: false,
        }
    }

    /// Stores a first reading of `/proc/stat` as the one the next sample compares with.
    pub fn seed(&mut self, aggregate: CpuTimes, per_core: Vec<CpuTimes>)
        requires
            times_fit(aggregate),
            all_fit(per_core@),
        ensures
            final(self).aggregate() == aggregate,
            final(self).per_core() == per_core@,
            final(self).per_pid() == old(self).per_pid(),
            final(self).have_baseline() == old(self).have_baseline(),
    {
        proof {
            use_type_invariant(&*self);
        }
        self.aggregate = aggregate;
        self.per_core = per_core;
    }

    /// Takes one sample: the usage since the previous readings, of the whole CPU and of
    /// each core; where `top_n > 0` and `processes` were read, the `top_n` busiest of them
    /// (their ticks compared with the previous sample, which must have had a baseline);
    /// then the new readings replace the old and a baseline exists.
    pub fn sample(
        &mut self,
        aggregate: CpuTimes,
        per_core: Vec<CpuTimes>,
        processes: Option<&Vec<ProcessSample>>,
        top_n: usize,
    ) -> (r: CpuSample)
        requires
            times_fit(aggregate),
            all_fit(per_core@),
            processes matches Some(ps) ==> forall|i: int|
                0 <= i < ps.len() ==> sample_fits(#[trigger] ps@[i]),
        ensures
            r.usage == (UsageDelta {
                busy: sat_sub(busy_ticks(aggregate), busy_ticks(old(self).aggregate())) as u64,
                total: sat_sub(total_ticks(aggregate), total_ticks(old(self).aggregate())) as u64,
            }),
            r.per_core.len() == per_core.len(),
            forall|i: int|
                0 <= i < per_core.len() ==> #[trigger] r.per_core@[i] == core_delta(
                    old(self).per_core(),
                    per_core@[i],
                    i,
                ),
            forall|i: int|
                0 <= i < per_core.len() && i < old(self).per_core().len() ==> {
                    &&& (#[trigger] r.per_core@[i]).busy == sat_sub(
                        busy_ticks(per_core@[i]),
                        busy_ticks(old(self).per_core()[i]),
                    )
                    &&& r.per_core@[i].total == sat_sub(
                        total_ticks(per_core@[i]),
                        total_ticks(old(self).per_core()[i]),
                    )
                },
            forall|i: int|
                old(self).per_core().len() <= i < per_core.len() ==> {
                    &&& (#[trigger] r.per_core@[i]).busy == busy_ticks(per_core@[i])
                    &&& r.per_core@[i].total == total_ticks(per_core@[i])
                },
            r.logical_cores == per_core.len() as u32,
            final(self).aggregate() == aggregate,
            final(self).per_core() == per_core@,
            final(self).have_baseline(),
            match processes {
                Some(ps) if top_n > 0 => {
                    &&& final(self).per_pid() == recorded_ticks(ps@)
                    &&& exists|entries: Seq<ProcessEntry>|
                        {
                            &&& entries.len() == ps.len()
                            &&& forall|i: int|
                                0 <= i < ps.len() ==> entry_matches(
                                    #[trigger] entries[i],
                                    old(self).per_pid(),
                                    old(self).have_baseline(),
                                    r.usage.total,
                                    ps@[i],
                                )
                            &&& r.processes.len() == if top_n < ps.len() {
                                top_n as int
                            } else {
                                ps.len() as int
                            }
                            &&& forall|k: int|
                                0 <= k < r.processes.len() ==> #[trigger] r.processes@[k]
                                    == entries[ranking(
                                    entries.map_values(|e: ProcessEntry| entry_key(e)),
                                )[k] as int]
                        }
                },
                _ => {
                    &&& final(self).per_pid() == old(self).per_pid()
                    &&& r.processes.len() == 0
                },
            },
    {
        proof {
            use_type_invariant(&*self);
        }
        let usage = CpuTimes::delta(&self.aggregate, &aggregate);
        let zero = CpuTimes::default();
        let mut cores: Vec<UsageDelta> = Vec::new();
        let mut i: usize = 0;
        while i < per_core.len()
            invariant
                i <= per_core.len(),
                all_fit(per_core@),
                all_fit(self.per_core@),
                zero == zero_times(),
                cores.len() == i,
                forall|k: int|
                    0 <= k < i ==> #[trigger] cores@[k] == core_delta(self.per_core@, per_core@[k], k),
            decreases per_core.len() - i,
        {
            assert(times_fit(per_core@[i as int]));
            let prev = if i < self.per_core.len() {
                assert(times_fit(self.per_core@[i as int]));
                &self.per_core[i]
            } else {
                &zero
            };
            cores.push(CpuTimes::delta(prev, &per_core[i]));
            i += 1;
        }
        let total_delta = usage.total;
        let logical_cores = per_core.len() as u32;
        self.aggregate = aggregate;
        self.per_core = per_core;
        let mut listed: Vec<ProcessEntry> = Vec::new();
        if top_n > 0 {
            match processes {
                Some(ps) => {
                    let (next, entries) = account_processes(&self.per_pid, self.have_baseline, total_delta, ps);
                    self.per_pid = next;
                    listed = rank_processes(&entries, top_n);
                },
                None => {},
            }
        }
        self.have_baseline = true;
        CpuSample { usage, per_core: cores, processes: listed, logical_cores }
    }
}

/// Each core's usage is measured from its own previous reading: where the core was read
/// before, its busy and total ticks are the growth of its counters since that reading
/// (0 where a counter went back), so the previous reading plus the usage gives the new
/// reading; a core read for the first time is measured from zero.
pub proof fn core_usage_since_previous_reading(prev: Seq<CpuTimes>, now: CpuTimes, i: int)
    requires
        0 <= i,
        times_fit(now),
        all_fit(prev),
    ensures
        i < prev.len() ==> core_delta(prev, now, i).busy == sat_sub(
            busy_ticks(now),
            busy_ticks(prev[i]),
        ),
        i < prev.len() ==> core_delta(prev, now, i).total == sat_sub(
            total_ticks(now),
            total_ticks(prev[i]),
        ),
        i < prev.len() && counters_advance(prev[i], now) ==> {
            &&& busy_ticks(prev[i]) + core_delta(prev, now, i).busy == busy_ticks(now)
            &&& total_ticks(prev[i]) + core_delta(prev, now, i).total == total_ticks(now)
        },
        i >= prev.len() ==> core_delta(prev, now, i).busy == busy_ticks(now)
            && core_delta(prev, now, i).total == total_ticks(now),
{
    if i < prev.len() {
        assert(times_fit(prev[i]));
    }
}

/// Before the first sample there is nothing to compare a process with: no process gets a
/// share of the CPU.
pub proof fn no_share_without_baseline(
    prev: Map<u32, u64>,
    total_delta: u64,
    s: ProcessSample,
    e: ProcessEntry,
)
    requires
        entry_matches(e, prev, false, total_delta, s),
    ensures
        e.tick_delta is None,
{
}

} // verus!
