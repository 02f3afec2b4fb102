//! Reading `/proc/stat` and the arithmetic of CPU usage.
use vstd::prelude::*;

use crate::text::{
    chars_of, has_prefix, lines, next_line, parse_u64, parse_u64_range, range_has_prefix,
    range_texts, ranges_within, split_words, words,
};

verus! {

/// Cumulative clock ticks that one CPU (or all of them) spent in each state.
#[derive(Clone, Copy, Debug)]
pub struct CpuTimes {
    pub user: u64,
    pub nice: u64,
    pub system: u64,
    pub idle: u64,
    pub iowait: u64,
    pub irq: u64,
    pub softirq: u64,
    pub steal: u64,
}

/// Ticks spent working: everything but idle and iowait.
pub open spec fn busy_ticks(t: CpuTimes) -> int {
    t.user + t.nice + t.system + t.irq + t.softirq + t.steal
}

/// All ticks.
pub open spec fn total_ticks(t: CpuTimes) -> int {
    busy_ticks(t) + t.idle + t.iowait
}

/// The all-zero times.
pub open spec fn zero_times() -> CpuTimes {
    CpuTimes {
        user: 0,
        nice: 0,
        system: 0,
        idle: 0,
        iowait: 0,
        irq: 0,
        softirq: 0,
        steal: 0,
    }
}

/// The busy and total ticks that passed between two readings.
#[derive(Clone, Copy, Debug, PartialEq, Eq)]
pub struct UsageDelta {
    pub busy: u64,
    pub total: u64,
}

/// `a - b`, or 0 where that is negative (`u64::saturating_sub`).
pub open spec fn sat_sub(a: int, b: int) -> int {
    if a >= b {
        a - b
    } else {
        0
    }
}

/// The counters of two readings whose totals fit in a `u64`.
pub open spec fn times_fit(t: CpuTimes) -> bool {
    total_ticks(t) <= u64::MAX
}

impl Default for CpuTimes {
    fn default() -> (r: CpuTimes)
        ensures
            r == zero_times(),
    {
        CpuTimes { user: 0, nice: 0, system: 0, idle: 0, iowait: 0, irq: 0, softirq: 0, steal: 0 }
    }
}

impl CpuTimes {
    /// Ticks spent working.
    pub fn busy(&self) -> (r: u64)
        requires
            busy_ticks(*self) <= u64::MAX,
        ensures
            r == busy_ticks(*self),
    {
        self.user + self.nice + self.system + self.irq + self.softirq + self.steal
    }

    /// All ticks.
    pub fn total(&self) -> (r: u64)
        requires
            times_fit(*self),
        ensures
            r == total_ticks(*self),
    {
        self.busy() + self.idle + self.iowait
    }

    /// The ticks that passed from `prev` to `now`: each of busy and total is the
    /// difference of the two readings, or 0 where the counter went back.
    pub fn delta(prev: &CpuTimes, now: &CpuTimes) -> (r: UsageDelta)
        requires
            times_fit(*prev),
            times_fit(*now),
        ensures
            r.total == sat_sub(total_ticks(*now), total_ticks(*prev)),
            r.busy == sat_sub(busy_ticks(*now), busy_ticks(*prev)),
    {
        UsageDelta {
            busy: now.busy().saturating_sub(prev.busy()),
            total: now.total().saturating_sub(prev.total()),
        }
    }
}

/// Every counter of `now` is at least that of `prev`.
pub open spec fn counters_advance(prev: CpuTimes, now: CpuTimes) -> bool {
    &&& prev.user <= now.user
    &&& prev.nice <= now.nice
    &&& prev.system <= now.system
    &&& prev.idle <= now.idle
    &&& prev.iowait <= now.iowait
    &&& prev.irq <= now.irq
    &&& prev.softirq <= now.softirq
    &&& prev.steal <= now.steal
}

/// Between two readings whose counters only grew, the busy ticks are the busy part of
/// the total ticks, so the usage lies between 0 and 100 percent; and two equal readings
/// give no ticks at all.
pub proof fn usage_within_total(prev: CpuTimes, now: CpuTimes)
    requires
        times_fit(prev),
        times_fit(now),
        counters_advance(prev, now),
    ensures
        sat_sub(busy_ticks(now), busy_ticks(prev)) <= sat_sub(total_ticks(now), total_ticks(prev)),
        sat_sub(busy_ticks(now), busy_ticks(prev)) == busy_ticks(now) - busy_ticks(prev),
        sat_sub(total_ticks(now), total_ticks(prev)) == total_ticks(now) - total_ticks(prev),
        prev == now ==> sat_sub(total_ticks(now), total_ticks(prev)) == 0,
{
}

/// The lines of `/proc/stat` up to the first one that does not start with `"cpu"`.
pub open spec fn leading_cpu_lines(ls: Seq<Seq<char>>) -> Seq<Seq<char>>
    decreases ls.len(),
{
    if ls.len() == 0 || !has_prefix(ls[0], "cpu"@) {
        seq![]
    } else {
        seq![ls[0]] + leading_cpu_lines(ls.drop_first())
    }
}

/// The words of `ws` that read as a `u64`, in order, as numbers.
pub open spec fn numbers_of(ws: Seq<Seq<char>>) -> Seq<u64>
    decreases ws.len(),
{
    if ws.len() == 0 {
        seq![]
    } else {
        let r = numbers_of(ws.drop_last());
        match parse_u64(ws.last()) {
            Some(n) => r.push(n),
            None => r,
        }
    }
}

/// The first word of a line: its label (`"cpu"`, `"cpu0"`, ...).
pub open spec fn line_label(l: Seq<char>) -> Seq<char> {
    if words(l).len() > 0 {
        words(l)[0]
    } else {
        seq![]
    }
}

/// The numbers that follow the label of a line.
pub open spec fn line_numbers(l: Seq<char>) -> Seq<u64> {
    if words(l).len() > 0 {
        numbers_of(words(l).drop_first())
    } else {
        seq![]
    }
}

/// The `i`-th number, or 0 where there are fewer.
pub open spec fn nth_or_zero(n: Seq<u64>, i: int) -> u64 {
    if i < n.len() {
        n[i]
    } else {
        0
    }
}

/// The times of a line: `None` where it holds fewer than four numbers; fields past the
/// numbers it holds are 0.
pub open spec fn line_times(l: Seq<char>) -> Option<CpuTimes> {
    let n = line_numbers(l);
    if n.len() >= 4 {
        Some(
            CpuTimes {
                user: n[0],
                nice: n[1],
                system: n[2],
                idle: n[3],
                iowait: nth_or_zero(n, 4),
                irq: nth_or_zero(n, 5),
                softirq: nth_or_zero(n, 6),
                steal: nth_or_zero(n, 7),
            },
        )
    } else {
        None
    }
}

/// The aggregate times: those of the last line labelled `"cpu"` that has times, or zero.
pub open spec fn aggregate_times(ls: Seq<Seq<char>>) -> CpuTimes
    decreases ls.len(),
{
    if ls.len() == 0 {
        zero_times()
    } else if line_label(ls.last()) == "cpu"@ && line_times(ls.last()) is Some {
        line_times(ls.last()).unwrap()
    } else {
        aggregate_times(ls.drop_last())
    }
}

/// The per-core times: those of the other labelled lines that have times, in order.
pub open spec fn core_times(ls: Seq<Seq<char>>) -> Seq<CpuTimes>
    decreases ls.len(),
{
    if ls.len() == 0 {
        seq![]
    } else {
        let r = core_times(ls.drop_last());
        if line_label(ls.last()) != "cpu"@ && line_times(ls.last()) is Some {
            r.push(line_times(ls.last()).unwrap())
        } else {
            r
        }
    }
}

/// What the text of `/proc/stat` gives: the aggregate times and the per-core times.
pub open spec fn proc_stat(content: Seq<char>) -> (CpuTimes, Seq<CpuTimes>) {
    let ls = leading_cpu_lines(lines(content));
    (aggregate_times(ls), core_times(ls))
}

proof fn lemma_leading_append(done: Seq<Seq<char>>, rest: Seq<Seq<char>>)
    requires
        forall|i: int| 0 <= i < done.len() ==> has_prefix(#[trigger] done[i], "cpu"@),
    ensures
        leading_cpu_lines(done + rest) == done + leading_cpu_lines(rest),
    decreases done.len(),
{
    if done.len() > 0 {
        let d2 = done.drop_first();
        assert forall|i: int| 0 <= i < d2.len() implies has_prefix(#[trigger] d2[i], "cpu"@) by {
            assert(d2[i] == done[i + 1]);
        }
        lemma_leading_append(d2, rest);
        assert((done + rest).drop_first() =~= d2 + rest);
        assert((done + rest)[0] == done[0]);
        assert(done =~= seq![done[0]] + d2);
    } else {
        assert(done + rest =~= rest);
    }
}

/// The numbers among the words `ws[from..]` of `v`.
fn numbers_in(v: &Vec<char>, ws: &Vec<(usize, usize)>, from: usize) -> (r: Vec<u64>)
    requires
        from <= ws.len(),
        ranges_within(ws@, 0, v.len() as int),
    ensures
        r@ == numbers_of(range_texts(v@, ws@).skip(from as int)),
{
    let mut r: Vec<u64> = Vec::new();
    let mut i = from;
    while i < ws.len()
        invariant
            from <= i <= ws.len(),
            ranges_within(ws@, 0, v.len() as int),
            r@ == numbers_of(range_texts(v@, ws@).subrange(from as int, i as int)),
        decreases ws.len() - i,
    {
        let (a, b) = ws[i];
        proof {
            assert(0 <= a <= b <= v.len()) by {
                assert(ws@[i as int] == (a, b));
            }
        }
        let n = parse_u64_range(v, a, b);
        proof {
            let t = range_texts(v@, ws@).subrange(from as int, i + 1);
            assert(t.drop_last() =~= range_texts(v@, ws@).subrange(from as int, i as int));
            assert(t.last() == v@.subrange(a as int, b as int));
        }
        match n {
            Some(x) => r.push(x),
            None => {},
        }
        i += 1;
    }
    assert(range_texts(v@, ws@).subrange(from as int, ws.len() as int) =~= range_texts(
        v@,
        ws@,
    ).skip(from as int));
    r
}

/// Reads the aggregate and per-core times from the text of `/proc/stat`: the leading
/// lines that start with `"cpu"`; a line with fewer than four numbers is skipped; the
/// line labelled `"cpu"` is the aggregate, the others are cores, in order.
pub fn parse_proc_stat(content: &str) -> (r: (CpuTimes, Vec<CpuTimes>))
    ensures
        r.0 == proc_stat(content@).0,
        r.1@ == proc_stat(content@).1,
{
    let v = chars_of(content);
    let cpu = chars_of("cpu");
    let n = v.len();
    let mut aggregate = CpuTimes::default();
    let mut per_core: Vec<CpuTimes> = Vec::new();
    let mut pos: usize = 0;
    let ghost mut done: Seq<Seq<char>> = seq![];
    assert(v@.skip(0) =~= v@);
    assert(lines(content@) =~= done + lines(v@.skip(0)));
    while pos < n
        invariant
            pos <= n == v.len(),
            v@ == content@,
            cpu@ == "cpu"@,
            lines(content@) == done + lines(v@.skip(pos as int)),
            forall|i: int| 0 <= i < done.len() ==> has_prefix(#[trigger] done[i], "cpu"@),
            aggregate == aggregate_times(done),
            per_core@ == core_times(done),
        decreases n - pos,
    {
        let (e, next) = next_line(&v, pos);
        let ghost line = v@.subrange(pos as int, e as int);
        let ghost ls = lines(v@.skip(pos as int));
        proof {
            assert(ls[0] == line);
            assert(ls.drop_first() =~= lines(v@.skip(next as int)));
        }
        if !range_has_prefix(&v, pos, e, &cpu) {
            proof {
                assert(leading_cpu_lines(ls) =~= Seq::<Seq<char>>::empty());
                lemma_leading_append(done, ls);
                assert(done + Seq::<Seq<char>>::empty() =~= done);
            }
            return (aggregate, per_core);
        }
        let ws = split_words(&v, pos, e);
        let ghost wt = range_texts(v@, ws@);
        assert(wt == words(line));
        let nums = if ws.len() > 0 {
            numbers_in(&v, &ws, 1)
        } else {
            Vec::new()
        };
        proof {
            if ws.len() > 0 {
                assert(wt.skip(1) =~= wt.drop_first());
            }
            assert(nums@ == line_numbers(line));
        }
        let is_aggregate = if ws.len() > 0 {
            let (a, b) = ws[0];
            proof {
                assert(ws@[0] == (a, b));
                assert(wt[0] == v@.subrange(a as int, b as int));
            }
            b - a == 3 && range_has_prefix(&v, a, b, &cpu)
        } else {
            false
        };
        proof {
            reveal_strlit("cpu");
            let lab = line_label(line);
            if ws.len() > 0 {
                let (a, b) = ws@[0];
                if b - a == 3 && has_prefix(v@.subrange(a as int, b as int), "cpu"@) {
                    assert(v@.subrange(a as int, b as int) =~= v@.subrange(a as int, b as int).take(3));
                }
                assert(lab == v@.subrange(a as int, b as int));
                if lab == "cpu"@ {
                    assert(lab.take(3) =~= lab);
                }
            } else {
                assert(lab =~= Seq::<char>::empty());
                assert("cpu"@.len() == 3);
            }
            assert(is_aggregate == (lab == "cpu"@));
        }
        let ghost nd = done.push(line);
        proof {
            assert(nd.drop_last() =~= done);
            assert(nd.last() == line);
        }
        if nums.len() >= 4 {
            let times = CpuTimes {
                user: nums[0],
                nice: nums[1],
                system: nums[2],
                idle: nums[3],
                iowait: if nums.len() > 4 {
                    nums[4]
                } else {
                    0
                },
                irq: if nums.len() > 5 {
                    nums[5]
                } else {
                    0
                },
                softirq: if nums.len() > 6 {
                    nums[6]
                } else {
                    0
                },
                steal: if nums.len() > 7 {
                    nums[7]
                } else {
                    0
                },
            };
            assert(line_times(line) == Some(times));
            if is_aggregate {
                aggregate = times;
            } else {
                per_core.push(times);
            }
        }
        proof {
            assert(aggregate == aggregate_times(nd));
            assert(per_core@ =~= core_times(nd));
            assert(lines(content@) =~= nd + lines(v@.skip(next as int))) by {
                assert(ls =~= seq![line] + lines(v@.skip(next as int)));
            }
            done = nd;
        }
        pos = next;
    }
    proof {
        assert(v@.skip(n as int) =~= Seq::<char>::empty());
        assert(lines(content@) =~= done + Seq::<Seq<char>>::empty());
        lemma_leading_append(done, Seq::<Seq<char>>::empty());
        assert(done + Seq::<Seq<char>>::empty() =~= done);
    }
    (aggregate, per_core)
}

} // verus!
