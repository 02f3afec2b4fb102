//! Processes: reading `/proc/<pid>/stat`, their share of the CPU between two samples,
//! and the ranking of the busiest.
use vstd::prelude::*;
use vstd::relations::{sorted_by, total_ordering};
use std::collections::HashMap;

use crate::proc_stat::sat_sub;
use crate::text::{
    chars_of, parse_u64, parse_u64_range, range_texts, ranges_within, split_words, string_of,
    words,
};

verus! {

broadcast use vstd::std_specs::hash::group_hash_axioms;

/// Size of a memory page, in bytes.
pub fn page_size_bytes() -> (r: u64)
    ensures
        r == 4096,
{
    4096
}

/// What one `/proc/<pid>/stat` line says of a process.
pub struct PidStat {
    /// The command name, between the first `'('` and the last `')'`.
    pub comm: String,
    /// Clock ticks spent in user mode.
    pub utime: u64,
    /// Clock ticks spent in kernel mode.
    pub stime: u64,
    /// Resident set size, in pages.
    pub rss_pages: u64,
}

/// Position of the last `c` in `s`.
pub open spec fn last_index_of(s: Seq<char>, c: char) -> Option<int>
    decreases s.len(),
{
    if s.len() == 0 {
        None
    } else if s.last() == c {
        Some(s.len() - 1)
    } else {
        last_index_of(s.drop_last(), c)
    }
}

/// Position of the first `c` in `s`.
pub open spec fn first_index_of(s: Seq<char>, c: char) -> Option<int>
    decreases s.len(),
{
    if s.len() == 0 {
        None
    } else {
        match first_index_of(s.drop_last(), c) {
            Some(i) => Some(i),
            None => if s.last() == c {
                Some(s.len() - 1)
            } else {
                None
            },
        }
    }
}

/// A number field: its value, or 0 where it is no `u64`.
pub open spec fn field_or_zero(w: Seq<char>) -> u64 {
    match parse_u64(w) {
        Some(n) => n,
        None => 0,
    }
}

/// What a `/proc/<pid>/stat` line gives: the command name (which may hold spaces and
/// parentheses, so it runs from the first `'('` to the last `')'`), then, among the
/// whitespace-separated fields after it, `utime` (field 11), `stime` (12) and the resident
/// pages (21), each 0 where it is no number. `None` where the parentheses are missing or
/// out of order, or fewer than 22 fields follow.
pub open spec fn pid_stat(s: Seq<char>) -> Option<(Seq<char>, u64, u64, u64)> {
    match (last_index_of(s, ')'), first_index_of(s, '(')) {
        (Some(close), Some(open)) => if close <= open + 1 {
            None
        } else {
            let fs = words(s.skip(close + 1));
            if fs.len() < 22 {
                None
            } else {
                Some(
                    (
                        s.subrange(open + 1, close),
                        field_or_zero(fs[11]),
                        field_or_zero(fs[12]),
                        field_or_zero(fs[21]),
                    ),
                )
            }
        },
        _ => None,
    }
}

proof fn lemma_last_index_of(s: Seq<char>, c: char, k: int)
    requires
        0 <= k <= s.len(),
        forall|i: int| k <= i < s.len() ==> #[trigger] s[i] != c,
    ensures
        last_index_of(s, c) == last_index_of(s.take(k), c),
    decreases s.len() - k,
{
    if k < s.len() {
        assert forall|i: int| k <= i < s.drop_last().len() implies #[trigger] s.drop_last()[i] != c by {
            assert(s.drop_last()[i] == s[i]);
        }
        lemma_last_index_of(s.drop_last(), c, k);
        assert(s.drop_last().take(k) =~= s.take(k));
    } else {
        assert(s.take(k) =~= s);
    }
}

proof fn lemma_first_index_of(s: Seq<char>, c: char, k: int)
    requires
        0 <= k <= s.len(),
        first_index_of(s.take(k), c) is Some,
    ensures
        first_index_of(s, c) == first_index_of(s.take(k), c),
    decreases s.len() - k,
{
    if k < s.len() {
        assert(s.take(k + 1).drop_last() =~= s.take(k));
        lemma_first_index_of(s, c, k + 1);
    } else {
        assert(s.take(k) =~= s);
    }
}

fn find_last(v: &Vec<char>, c: char) -> (r: Option<usize>)
    ensures
        r matches Some(i) ==> last_index_of(v@, c) == Some(i as int) && i < v.len(),
        r is None ==> last_index_of(v@, c) is None,
{
    let mut k = v.len();
    while k > 0
        invariant
            k <= v.len(),
            forall|i: int| k <= i < v.len() ==> #[trigger] v@[i] != c,
        decreases k,
    {
        if v[k - 1] == c {
            proof {
                lemma_last_index_of(v@, c, k as int);
                assert(v@.take(k as int).last() == c);
            }
            return Some(k - 1);
        }
        k -= 1;
    }
    proof {
        lemma_last_index_of(v@, c, 0);
    }
    None
}

fn find_first(v: &Vec<char>, c: char) -> (r: Option<usize>)
    ensures
        r matches Some(i) ==> first_index_of(v@, c) == Some(i as int) && i < v.len(),
        r is None ==> first_index_of(v@, c) is None,
{
    let mut k: usize = 0;
    while k < v.len()
        invariant
            k <= v.len(),
            first_index_of(v@.take(k as int), c) is None,
        decreases v.len() - k,
    {
        proof {
            assert(v@.take(k + 1).drop_last() =~= v@.take(k as int));
            assert(v@.take(k + 1).last() == v@[k as int]);
        }
        if v[k] == c {
            proof {
                lemma_first_index_of(v@, c, k + 1);
            }
            return Some(k);
        }
        k += 1;
    }
    assert(v@.take(v.len() as int) =~= v@);
    None
}

fn number_field(v: &Vec<char>, ws: &Vec<(usize, usize)>, i: usize) -> (r: u64)
    requires
        i < ws.len(),
        ranges_within(ws@, 0, v.len() as int),
    ensures
        r == field_or_zero(range_texts(v@, ws@)[i as int]),
{
    let (a, b) = ws[i];
    assert(ws@[i as int] == (a, b));
    match parse_u64_range(v, a, b) {
        Some(n) => n,
        None => 0,
    }
}

/// Reads a `/proc/<pid>/stat` line (see `pid_stat`).
pub fn parse_pid_stat(stat: &str) -> (r: Option<PidStat>)
    ensures
        r matches Some(p) ==> pid_stat(stat@) == Some((p.comm@, p.utime, p.stime, p.rss_pages)),
        r is None ==> pid_stat(stat@) is None,
{
    let v = chars_of(stat);
    let close = match find_last(&v, ')') {
        Some(i) => i,
        None => {
            return None;
        },
    };
    let open = match find_first(&v, '(') {
        Some(i) => i,
        None => {
            return None;
        },
    };
    if close <= open + 1 {
        return None;
    }
    let ws = split_words(&v, close + 1, v.len());
    assert(v@.subrange(close + 1, v.len() as int) =~= v@.skip(close + 1));
    if ws.len() < 22 {
        return None;
    }
    let comm = string_of(&v, open + 1, close);
    let utime = number_field(&v, &ws, 11);
    let stime = number_field(&v, &ws, 12);
    let rss_pages = number_field(&v, &ws, 21);
    Some(PidStat { comm, utime, stime, rss_pages })
}

/// A process as the snapshot lists it, before its share of the CPU is worked out.
pub struct ProcessEntry {
    pub pid: u32,
    pub name: String,
    /// Ticks the process used since the previous sample; `None` where there is no
    /// previous sample to compare with (its share then counts as 0).
    pub tick_delta: Option<u64>,
    pub memory_bytes: u64,
}

/// A process read in this sample.
pub struct ProcessSample {
    pub pid: u32,
    pub stat: PidStat,
}

/// The counters of a sample fit the arithmetic done on them.
pub open spec fn sample_fits(s: ProcessSample) -> bool {
    &&& s.stat.utime + s.stat.stime <= u64::MAX
    &&& s.stat.rss_pages * 4096 <= u64::MAX
}

/// Ticks used by a sampled process so far.
pub open spec fn sample_ticks(s: ProcessSample) -> u64 {
    (s.stat.utime + s.stat.stime) as u64
}

/// The tick counts recorded for the samples `ss`, by pid (a later sample of a pid wins).
pub open spec fn recorded_ticks(ss: Seq<ProcessSample>) -> Map<u32, u64>
    decreases ss.len(),
{
    if ss.len() == 0 {
        Map::empty()
    } else {
        recorded_ticks(ss.drop_last()).insert(ss.last().pid, sample_ticks(ss.last()))
    }
}

/// The ticks a process used since the previous sample: only where there is a baseline,
/// ticks passed on the whole CPU, and the process was seen before.
pub open spec fn tick_delta_of(
    prev: Map<u32, u64>,
    have_baseline: bool,
    total_delta: u64,
    s: ProcessSample,
) -> Option<u64> {
    if have_baseline && total_delta > 0 && prev.contains_key(s.pid) {
        Some(sat_sub(sample_ticks(s) as int, prev[s.pid] as int) as u64)
    } else {
        None
    }
}

/// The entry listed for sample `s`.
pub open spec fn entry_matches(
    e: ProcessEntry,
    prev: Map<u32, u64>,
    have_baseline: bool,
    total_delta: u64,
    s: ProcessSample,
) -> bool {
    &&& e.pid == s.pid
    &&& e.name@ == s.stat.comm@
    &&& e.tick_delta == tick_delta_of(prev, have_baseline, total_delta, s)
    &&& e.memory_bytes == s.stat.rss_pages * 4096
}

/// Turns the processes read in this sample into entries, comparing each with the ticks
/// `prev` recorded for its pid in the previous sample; returns the ticks to record for the
/// next sample.
pub fn account_processes(
    prev: &HashMap<u32, u64>,
    have_baseline: bool,
    total_delta: u64,
    samples: &Vec<ProcessSample>,
) -> (r: (HashMap<u32, u64>, Vec<ProcessEntry>))
    requires
        forall|i: int| 0 <= i < samples.len() ==> sample_fits(#[trigger] samples@[i]),
    ensures
        r.0@ == recorded_ticks(samples@),
        r.1.len() == samples.len(),
        forall|i: int|
            0 <= i < samples.len() ==> entry_matches(
                #[trigger] r.1@[i],
                prev@,
                have_baseline,
                total_delta,
                samples@[i],
            ),
{
    let mut next: HashMap<u32, u64> = HashMap::new();
    let mut out: Vec<ProcessEntry> = Vec::new();
    let ghost all = samples@;
    let mut i: usize = 0;
    let n = samples.len();
    while i < n
        invariant
            n == all.len(),
            all == samples@,
            i <= n,
            forall|k: int| 0 <= k < all.len() ==> sample_fits(#[trigger] all[k]),
            next@ == recorded_ticks(all.take(i as int)),
            out.len() == i,
            forall|k: int|
                0 <= k < i ==> entry_matches(
                    #[trigger] out@[k],
                    prev@,
                    have_baseline,
                    total_delta,
                    all[k],
                ),
        decreases n - i,
    {
        let s = &samples[i];
        proof {
            assert(all.take(i + 1).drop_last() =~= all.take(i as int));
            assert(all.take(i + 1).last() == all[i as int]);
            assert(sample_fits(all[i as int]));
        }
        let ticks = s.stat.utime + s.stat.stime;
        let delta = if have_baseline && total_delta > 0 {
            match prev.get(&s.pid) {
                Some(p) => Some(ticks.saturating_sub(*p)),
                None => None,
            }
        } else {
            None
        };
        next.insert(s.pid, ticks);
        let memory_bytes = s.stat.rss_pages * page_size_bytes();
        out.push(
            ProcessEntry {
                pid: s.pid,
                name: s.stat.comm.clone(),
                tick_delta: delta,
                memory_bytes,
            },
        );
        i += 1;
    }
    assert(all.take(n as int) =~= all);
    (next, out)
}

/// The sort key of an entry: ticks used (0 where unknown), then memory.
pub open spec fn entry_key(e: ProcessEntry) -> (u64, u64) {
    (
        match e.tick_delta {
            Some(d) => d,
            None => 0,
        },
        e.memory_bytes,
    )
}

/// Entry `a` comes before entry `b`: more ticks, or as many and more memory, or both
/// equal and `a` listed first.
pub open spec fn ranks_before(keys: Seq<(u64, u64)>, a: int, b: int) -> bool {
    ||| keys[a].0 > keys[b].0
    ||| (keys[a].0 == keys[b].0 && keys[a].1 > keys[b].1)
    ||| (keys[a] == keys[b] && a < b)
}

/// The order of the ranking, as a relation on positions.
pub open spec fn rank_leq(keys: Seq<(u64, u64)>) -> spec_fn(usize, usize) -> bool {
    |a: usize, b: usize| a == b || ranks_before(keys, a as int, b as int)
}

/// Positions `0..n`.
pub open spec fn positions(n: nat) -> Seq<usize> {
    Seq::new(n, |i: int| i as usize)
}

/// The positions of the entries with keys `keys`, busiest first: a stable sort by ticks,
/// then memory, both descending.
pub open spec fn ranking(keys: Seq<(u64, u64)>) -> Seq<usize> {
    positions(keys.len()).sort_by(rank_leq(keys))
}

/// The ranking order is a total order.
pub proof fn lemma_rank_leq_total(keys: Seq<(u64, u64)>)
    ensures
        total_ordering(rank_leq(keys)),
{
    let f = rank_leq(keys);
    assert forall|x: usize, y: usize| #[trigger] f(x, y) && #[trigger] f(y, x) implies x == y by {}
    assert forall|x: usize, y: usize, z: usize| #[trigger] f(x, y) && #[trigger] f(y, z) implies f(
        x,
        z,
    ) by {}
    assert forall|x: usize, y: usize| #[trigger] f(x, y) || #[trigger] f(y, x) by {}
}

/// The ranking lists every entry exactly once, each before every entry that it outranks:
/// more ticks first, then more memory, and on equal keys in the order they were read.
pub proof fn ranking_lists_each_entry_once_busiest_first(keys: Seq<(u64, u64)>)
    requires
        keys.len() <= usize::MAX,
    ensures
        ranking(keys).len() == keys.len(),
        forall|k: usize| k < keys.len() ==> #[trigger] ranking(keys).contains(k),
        forall|i: int, j: int|
            0 <= i < j < keys.len() ==> ranks_before(
                keys,
                #[trigger] ranking(keys)[i] as int,
                #[trigger] ranking(keys)[j] as int,
            ),
{
    broadcast use vstd::seq_lib::group_to_multiset_ensures;

    let p = positions(keys.len());
    let r = ranking(keys);
    p.lemma_sort_by_ensures(rank_leq(keys));
    vstd::seq_lib::to_multiset_len(r);
    vstd::seq_lib::to_multiset_len(p);
    assert forall|k: usize| k < keys.len() implies #[trigger] r.contains(k) by {
        assert(p[k as int] == k);
        assert(p.contains(k));
        assert(p.to_multiset().contains(k));
        assert(r.to_multiset().contains(k));
    }
    assert forall|i: int, j: int| 0 <= i < p.len() && 0 <= j < p.len() && i != j implies p[i]
        != p[j] by {
        assert(p[i] == i as usize);
        assert(p[j] == j as usize);
    }
    assert(p.no_duplicates());
    p.lemma_multiset_has_no_duplicates();
    r.lemma_multiset_has_no_duplicates_conv();
    assert forall|i: int, j: int| 0 <= i < j < keys.len() implies ranks_before(
        keys,
        #[trigger] r[i] as int,
        #[trigger] r[j] as int,
    ) by {
        assert(rank_leq(keys)(r[i], r[j]));
        assert(r[i] != r[j]);
    }
}

/// The positions of `entries`, in the order they rank.
pub open spec fn entry_order(entries: Seq<ProcessEntry>) -> Seq<usize> {
    ranking(entries.map_values(|e: ProcessEntry| entry_key(e)))
}

/// Ranked entries come busiest first: of two entries, the one listed first used more
/// ticks (an entry with no previous sample counting as 0), or as many and at least as much
/// memory.
pub proof fn ranked_entries_busiest_first(entries: Seq<ProcessEntry>)
    requires
        entries.len() <= usize::MAX,
    ensures
        forall|i: int, j: int|
            #![trigger entry_order(entries)[i], entry_order(entries)[j]]
            0 <= i < j < entries.len() ==> {
                let a = entries[entry_order(entries)[i] as int];
                let b = entries[entry_order(entries)[j] as int];
                let ta = match a.tick_delta {
                    Some(d) => d as int,
                    None => 0int,
                };
                let tb = match b.tick_delta {
                    Some(d) => d as int,
                    None => 0int,
                };
                ta > tb || (ta == tb && a.memory_bytes >= b.memory_bytes)
            },
{
    let keys = entries.map_values(|e: ProcessEntry| entry_key(e));
    ranking_lists_each_entry_once_busiest_first(keys);
    let order = ranking(keys);
    assert(order == entry_order(entries));
    assert forall|i: int, j: int|
        #![trigger entry_order(entries)[i], entry_order(entries)[j]]
        0 <= i < j < entries.len() implies {
        let a = entries[entry_order(entries)[i] as int];
        let b = entries[entry_order(entries)[j] as int];
        let ta = match a.tick_delta {
            Some(d) => d as int,
            None => 0int,
        };
        let tb = match b.tick_delta {
            Some(d) => d as int,
            None => 0int,
        };
        ta > tb || (ta == tb && a.memory_bytes >= b.memory_bytes)
    } by {
        assert(ranks_before(keys, order[i] as int, order[j] as int));
        assert(order.contains(order[i]) && order.contains(order[j]));
        lemma_ranking_in_range(keys, i);
        lemma_ranking_in_range(keys, j);
        assert(keys[order[i] as int] == entry_key(entries[order[i] as int]));
        assert(keys[order[j] as int] == entry_key(entries[order[j] as int]));
    }
}

/// Every position in the ranking is a position of `keys`.
proof fn lemma_ranking_in_range(keys: Seq<(u64, u64)>, i: int)
    requires
        keys.len() <= usize::MAX,
        0 <= i < keys.len(),
    ensures
        ranking(keys)[i] < keys.len(),
{
    broadcast use vstd::seq_lib::group_to_multiset_ensures;

    let p = positions(keys.len());
    let r = ranking(keys);
    p.lemma_sort_by_ensures(rank_leq(keys));
    vstd::seq_lib::to_multiset_len(r);
    vstd::seq_lib::to_multiset_len(p);
    assert(r.contains(r[i]));
    assert(r.to_multiset().contains(r[i]));
    assert(p.to_multiset().contains(r[i]));
    assert(p.contains(r[i]));
    let j = choose|j: int| 0 <= j < p.len() && p[j] == r[i];
    assert(p[j] == j as usize);
}

/// The positions of `keys`, busiest first (see `ranking`).
pub fn rank_order(keys: &Vec<(u64, u64)>) -> (r: Vec<usize>)
    ensures
        r@ == ranking(keys@),
{
    broadcast use vstd::seq_lib::group_to_multiset_ensures;

    let ghost f = rank_leq(keys@);
    proof {
        lemma_rank_leq_total(keys@);
    }
    let mut out: Vec<usize> = Vec::new();
    let mut i: usize = 0;
    while i < keys.len()
        invariant
            i <= keys.len(),
            f == rank_leq(keys@),
            total_ordering(f),
            sorted_by(out@, f),
            forall|k: int| 0 <= k < out.len() ==> #[trigger] out@[k] < i,
            out@.to_multiset() == positions(i as nat).to_multiset(),
        decreases keys.len() - i,
    {
        let (ki0, ki1) = keys[i];
        let mut k: usize = 0;
        while k < out.len()
            invariant
                k <= out.len(),
                i < keys.len(),
                keys@[i as int] == (ki0, ki1),
                forall|j: int| 0 <= j < out.len() ==> #[trigger] out@[j] < i,
                forall|j: int| 0 <= j < k ==> ranks_before(keys@, #[trigger] out@[j] as int, i as int),
            ensures
                k <= out.len(),
                forall|j: int| 0 <= j < k ==> ranks_before(keys@, #[trigger] out@[j] as int, i as int),
                k < out.len() ==> !ranks_before(keys@, out@[k as int] as int, i as int),
            decreases out.len() - k,
        {
            let o = out[k];
            assert(o < keys.len());
            let (ko0, ko1) = keys[o];
            if !(ko0 > ki0 || (ko0 == ki0 && ko1 >= ki1)) {
                break;
            }
            k += 1;
        }
        let ghost before = out@;
        out.insert(k, i);
        proof {
            vstd::seq_lib::to_multiset_insert(before, k as int, i);
            assert(positions((i + 1) as nat) =~= positions(i as nat).push(i));
            vstd::seq_lib::to_multiset_build(positions(i as nat), i);
            assert(out@.to_multiset() =~= positions((i + 1) as nat).to_multiset());
            assert forall|a: int, b: int| 0 <= a < b < out@.len() implies #[trigger] f(out@[a], out@[b]) by {
                if b < k {
                    assert(f(before[a], before[b]));
                } else if b == k {
                    assert(ranks_before(keys@, before[a] as int, i as int));
                } else if a < k {
                    assert(out@[b] == before[b - 1]);
                    assert(ranks_before(keys@, before[a] as int, i as int));
                    assert(!ranks_before(keys@, before[k as int] as int, i as int));
                    assert(f(i, before[k as int]));
                    if b - 1 > k {
                        assert(f(before[k as int], before[b - 1]));
                    }
                    assert(f(i, before[b - 1]));
                    assert(f(before[a], i));
                } else if a == k {
                    assert(!ranks_before(keys@, before[k as int] as int, i as int));
                    assert(f(i, before[k as int]));
                    if b - 1 > k {
                        assert(f(before[k as int], before[b - 1]));
                    }
                } else {
                    assert(out@[a] == before[a - 1]);
                    assert(out@[b] == before[b - 1]);
                    assert(f(before[a - 1], before[b - 1]));
                }
            }
            assert forall|j: int| 0 <= j < out.len() implies #[trigger] out@[j] < i + 1 by {
                if j < k {
                    assert(out@[j] == before[j]);
                } else if j > k {
                    assert(out@[j] == before[j - 1]);
                }
            }
        }
        i += 1;
    }
    proof {
        let p = positions(keys@.len());
        p.lemma_sort_by_ensures(f);
        vstd::seq_lib::lemma_sorted_unique(out@, p.sort_by(f), f);
    }
    out
}

/// The busiest `top_n` entries, busiest first (see `ranking`).
pub fn rank_processes(entries: &Vec<ProcessEntry>, top_n: usize) -> (r: Vec<ProcessEntry>)
    ensures
        r.len() == if top_n < entries.len() {
            top_n as int
        } else {
            entries.len() as int
        },
        forall|k: int|
            0 <= k < r.len() ==> #[trigger] r@[k] == entries@[ranking(
                entries@.map_values(|e: ProcessEntry| entry_key(e)),
            )[k] as int],
        forall|k: int, l: int|
            0 <= k < l < r.len() ==> {
                let tk = match (#[trigger] r@[k]).tick_delta {
                    Some(d) => d as int,
                    None => 0int,
                };
                let tl = match (#[trigger] r@[l]).tick_delta {
                    Some(d) => d as int,
                    None => 0int,
                };
                tk > tl || (tk == tl && r@[k].memory_bytes >= r@[l].memory_bytes)
            },
{
    broadcast use vstd::seq_lib::group_to_multiset_ensures;

    let mut keys: Vec<(u64, u64)> = Vec::new();
    let mut i: usize = 0;
    while i < entries.len()
        invariant
            i <= entries.len(),
            keys@ == entries@.take(i as int).map_values(|e: ProcessEntry| entry_key(e)),
        decreases entries.len() - i,
    {
        let e = &entries[i];
        let d = match e.tick_delta {
            Some(d) => d,
            None => 0,
        };
        keys.push((d, e.memory_bytes));
        i += 1;
        assert(keys@ =~= entries@.take(i as int).map_values(|e: ProcessEntry| entry_key(e)));
    }
    assert(entries@.take(entries.len() as int) =~= entries@);
    let order = rank_order(&keys);
    proof {
        let p = positions(keys@.len());
        p.lemma_sort_by_ensures(rank_leq(keys@));
        vstd::seq_lib::to_multiset_len(order@);
        vstd::seq_lib::to_multiset_len(p);
        assert(order@.len() == entries.len());
        assert forall|k: int| 0 <= k < order.len() implies #[trigger] order@[k] < entries.len() by {
            assert(order@.contains(order@[k]));
            assert(order@.to_multiset().contains(order@[k]));
            assert(p.to_multiset().contains(order@[k]));
            assert(p.contains(order@[k]));
            let j = choose|j: int| 0 <= j < p.len() && p[j] == order@[k];
            assert(p[j] == j as usize);
        }
    }
    let count = if top_n < entries.len() {
        top_n
    } else {
        entries.len()
    };
    let mut out: Vec<ProcessEntry> = Vec::new();
    let mut k: usize = 0;
    while k < count
        invariant
            k <= count <= entries.len(),
            order@ == ranking(keys@),
            keys@ == entries@.map_values(|e: ProcessEntry| entry_key(e)),
            order.len() == entries.len(),
            forall|j: int| 0 <= j < order.len() ==> #[trigger] order@[j] < entries.len(),
            out.len() == k,
            forall|j: int| 0 <= j < k ==> #[trigger] out@[j] == entries@[order@[j] as int],
        decreases count - k,
    {
        let e = &entries[order[k]];
        out.push(ProcessEntry { pid: e.pid, name: e.name.clone(), tick_delta: e.tick_delta, memory_bytes: e.memory_bytes });
        k += 1;
    }
    proof {
        ranked_entries_busiest_first(entries@);
        assert forall|k: int, l: int| 0 <= k < l < out.len() implies {
            let tk = match (#[trigger] out@[k]).tick_delta {
                Some(d) => d as int,
                None => 0int,
            };
            let tl = match (#[trigger] out@[l]).tick_delta {
                Some(d) => d as int,
                None => 0int,
            };
            tk > tl || (tk == tl && out@[k].memory_bytes >= out@[l].memory_bytes)
        } by {
            assert(out@[k] == entries@[order@[k] as int]);
            assert(out@[l] == entries@[order@[l] as int]);
        }
    }
    out
}

} // verus!
