//! Temperature sensors: which hwmon chips belong to the CPU, which of their inputs exist,
//! and which sensor stands for the CPU.
use vstd::prelude::*;

use crate::text::{
    chars_of, decimal, has_prefix, has_suffix, parse_u32, parse_u32_range, push_char, push_decimal,
    push_str, range_has_prefix, range_has_suffix, str_eq, trim, trim_str,
};

verus! {

/// Rank of a hwmon chip name among the CPU drivers, best first: `k10temp`, `coretemp`,
/// `zenpower`, `cpu_thermal`; `None` for any other chip.
pub open spec fn hwmon_rank(name: Seq<char>) -> Option<nat> {
    if name == "k10temp"@ {
        Some(0)
    } else if name == "coretemp"@ {
        Some(1)
    } else if name == "zenpower"@ {
        Some(2)
    } else if name == "cpu_thermal"@ {
        Some(3)
    } else {
        None
    }
}

/// The CPU drivers are `k10temp`, `coretemp`, `zenpower` and `cpu_thermal`, ranked in
/// that order, best first; no other chip name is a CPU driver.
pub proof fn cpu_drivers_in_rank_order(name: Seq<char>)
    ensures
        hwmon_rank("k10temp"@) == Some(0nat),
        hwmon_rank("coretemp"@) == Some(1nat),
        hwmon_rank("zenpower"@) == Some(2nat),
        hwmon_rank("cpu_thermal"@) == Some(3nat),
        hwmon_rank(name) is Some ==> name == "k10temp"@ || name == "coretemp"@ || name
            == "zenpower"@ || name == "cpu_thermal"@,
{
    reveal_strlit("k10temp");
    reveal_strlit("coretemp");
    reveal_strlit("zenpower");
    reveal_strlit("cpu_thermal");
    assert("coretemp"@ != "k10temp"@) by {
        assert("coretemp"@[0] != "k10temp"@[0]);
    }
    assert("zenpower"@ != "k10temp"@) by {
        assert("zenpower"@[0] != "k10temp"@[0]);
    }
    assert("zenpower"@ != "coretemp"@) by {
        assert("zenpower"@[0] != "coretemp"@[0]);
    }
    assert("cpu_thermal"@ != "k10temp"@) by {
        assert("cpu_thermal"@.len() != "k10temp"@.len());
    }
    assert("cpu_thermal"@ != "coretemp"@) by {
        assert("cpu_thermal"@.len() != "coretemp"@.len());
    }
    assert("cpu_thermal"@ != "zenpower"@) by {
        assert("cpu_thermal"@.len() != "zenpower"@.len());
    }
}

/// Rank of a chip whose `name` file read as `raw` (`None`: it could not be read).
pub open spec fn chip_rank(raw: Option<String>) -> Option<nat> {
    match raw {
        Some(s) => hwmon_rank(trim(s@)),
        None => None,
    }
}

/// The positions of the CPU chips among `names`, in order.
pub open spec fn cpu_chips(names: Seq<Option<String>>) -> Seq<usize>
    decreases names.len(),
{
    if names.len() == 0 {
        seq![]
    } else {
        let r = cpu_chips(names.drop_last());
        if chip_rank(names.last()) is Some {
            r.push((names.len() - 1) as usize)
        } else {
            r
        }
    }
}

/// The best-ranked CPU chip among `names`, the first of them on a tie: its rank and its
/// trimmed name.
pub open spec fn best_chip(names: Seq<Option<String>>) -> Option<(nat, Seq<char>)>
    decreases names.len(),
{
    if names.len() == 0 {
        None
    } else {
        let b = best_chip(names.drop_last());
        match chip_rank(names.last()) {
            Some(r) => if b is None || r < b.unwrap().0 {
                Some((r, trim(names.last()->0@)))
            } else {
                b
            },
            None => b,
        }
    }
}

/// The leading chip is a CPU chip of the least rank, and no CPU chip before it has that
/// rank.
pub proof fn primary_chip_is_first_best_ranked(names: Seq<Option<String>>) -> (j: int)
    requires
        best_chip(names) is Some,
    ensures
        0 <= j < names.len(),
        chip_rank(names[j]) == Some(best_chip(names).unwrap().0),
        trim(names[j]->0@) == best_chip(names).unwrap().1,
        forall|k: int|
            0 <= k < names.len() && #[trigger] chip_rank(names[k]) is Some ==> best_chip(
                names,
            ).unwrap().0 <= chip_rank(names[k]).unwrap(),
        forall|k: int|
            0 <= k < j && #[trigger] chip_rank(names[k]) is Some ==> best_chip(names).unwrap().0
                < chip_rank(names[k]).unwrap(),
    decreases names.len(),
{
    let init = names.drop_last();
    let b = best_chip(init);
    let last = names.len() - 1;
    assert forall|k: int| 0 <= k < init.len() implies init[k] == names[k] by {}
    match chip_rank(names.last()) {
        Some(r) => {
            if b is None || r < b.unwrap().0 {
                if b is Some {
                    let j0 = primary_chip_is_first_best_ranked(init);
                    assert forall|k: int| 0 <= k < names.len() && #[trigger] chip_rank(names[k]) is Some implies r
                        <= chip_rank(names[k]).unwrap() by {
                        if k < last {
                            assert(chip_rank(init[k]) is Some);
                        }
                    }
                } else {
                    lemma_no_chip(init);
                    assert forall|k: int| 0 <= k < last implies chip_rank(#[trigger] names[k]) is None by {
                        assert(chip_rank(init[k]) is None);
                    }
                }
                last
            } else {
                let j0 = primary_chip_is_first_best_ranked(init);
                assert forall|k: int| 0 <= k < names.len() && #[trigger] chip_rank(names[k]) is Some implies b.unwrap().0
                    <= chip_rank(names[k]).unwrap() by {
                    if k < last {
                        assert(chip_rank(init[k]) is Some);
                    }
                }
                assert forall|k: int| 0 <= k < j0 && #[trigger] chip_rank(names[k]) is Some implies b.unwrap().0
                    < chip_rank(names[k]).unwrap() by {
                    assert(chip_rank(init[k]) is Some);
                }
                j0
            }
        },
        None => {
            let j0 = primary_chip_is_first_best_ranked(init);
            assert forall|k: int| 0 <= k < names.len() && #[trigger] chip_rank(names[k]) is Some implies b.unwrap().0
                <= chip_rank(names[k]).unwrap() by {
                if k < last {
                    assert(chip_rank(init[k]) is Some);
                }
            }
            assert forall|k: int| 0 <= k < j0 && #[trigger] chip_rank(names[k]) is Some implies b.unwrap().0
                < chip_rank(names[k]).unwrap() by {
                assert(chip_rank(init[k]) is Some);
            }
            j0
        },
    }
}

/// Where no chip leads, none of the directories is a CPU chip.
pub proof fn lemma_no_chip(names: Seq<Option<String>>)
    requires
        best_chip(names) is None,
    ensures
        forall|k: int| 0 <= k < names.len() ==> chip_rank(#[trigger] names[k]) is None,
        cpu_chips(names).len() == 0,
    decreases names.len(),
{
    if names.len() > 0 {
        lemma_no_chip(names.drop_last());
        assert forall|k: int| 0 <= k < names.len() implies chip_rank(#[trigger] names[k]) is None by {
            if k < names.len() - 1 {
                assert(names[k] == names.drop_last()[k]);
            }
        }
    }
}

/// The CPU chips among the hwmon directories, and the name of the one that leads.
pub struct HwmonChoice {
    /// Positions (in the list given) of the directories whose chip is a CPU driver.
    pub chips: Vec<usize>,
    /// The trimmed name of the best-ranked of them.
    pub primary: Option<String>,
}

fn rank_of(name: &str) -> (r: Option<u32>)
    ensures
        r matches Some(k) ==> hwmon_rank(name@) == Some(k as nat),
        r is None ==> hwmon_rank(name@) is None,
{
    if str_eq(name, "k10temp") {
        Some(0)
    } else if str_eq(name, "coretemp") {
        Some(1)
    } else if str_eq(name, "zenpower") {
        Some(2)
    } else if str_eq(name, "cpu_thermal") {
        Some(3)
    } else {
        None
    }
}

/// Picks the CPU chips out of the hwmon directories, given what each one's `name` file
/// read as (`None` where it could not be read): their positions in order, and the name of
/// the best-ranked one, the first on a tie.
pub fn select_hwmon(names: &Vec<Option<String>>) -> (r: HwmonChoice)
    ensures
        r.chips@ == cpu_chips(names@),
        r.primary matches Some(p) ==> best_chip(names@) matches Some(b) && b.1 == p@,
        r.primary is None ==> best_chip(names@) is None,
{
    let mut chips: Vec<usize> = Vec::new();
    let mut primary: Option<String> = None;
    let mut best_rank: u32 = u32::MAX;
    let mut i: usize = 0;
    while i < names.len()
        invariant
            i <= names.len(),
            chips@ == cpu_chips(names@.take(i as int)),
            match best_chip(names@.take(i as int)) {
                Some(b) => primary matches Some(p) && p@ == b.1 && best_rank == b.0,
                None => primary is None && best_rank == u32::MAX,
            },
        decreases names.len() - i,
    {
        let ghost t = names@.take(i + 1);
        proof {
            assert(t.drop_last() =~= names@.take(i as int));
            assert(t.last() == names@[i as int]);
        }
        match &names[i] {
            Some(raw) => {
                let name = trim_str(raw.as_str());
                match rank_of(name.as_str()) {
                    Some(k) => {
                        chips.push(i);
                        if k < best_rank {
                            best_rank = k;
                            primary = Some(name);
                        }
                    },
                    None => {},
                }
            },
            None => {},
        }
        i += 1;
    }
    assert(names@.take(names.len() as int) =~= names@);
    HwmonChoice { chips, primary }
}

/// The sensor number of a hwmon input file name `temp<N>_input`.
pub open spec fn temp_input_number(name: Seq<char>) -> Option<u32> {
    if has_prefix(name, "temp"@) {
        let rest = name.skip(4);
        if has_suffix(rest, "_input"@) {
            parse_u32(rest.take(rest.len() - 6))
        } else {
            None
        }
    } else {
        None
    }
}

/// The sensor number in a hwmon file name of the form `temp<N>_input`.
pub fn temp_input_index(file_name: &str) -> (r: Option<u32>)
    ensures
        r == temp_input_number(file_name@),
{
    let v = chars_of(file_name);
    let pre = chars_of("temp");
    let suf = chars_of("_input");
    proof {
        reveal_strlit("temp");
        reveal_strlit("_input");
        assert(v@.subrange(0, v.len() as int) =~= v@);
    }
    if !range_has_prefix(&v, 0, v.len(), &pre) {
        return None;
    }
    assert(v@.skip(4) =~= v@.subrange(4, v.len() as int));
    if !range_has_suffix(&v, 4, v.len(), &suf) {
        return None;
    }
    let end = v.len() - 6;
    assert(v@.skip(4).take(v.len() - 4 - 6) =~= v@.subrange(4, end as int));
    parse_u32_range(&v, 4, end)
}

/// `s` is in ascending order.
pub open spec fn ascending(s: Seq<u32>) -> bool {
    forall|i: int, j: int| 0 <= i < j < s.len() ==> s[i] <= s[j]
}

/// Sorts sensor numbers in ascending order (`sort_unstable`).
pub fn sort_numbers(v: &Vec<u32>) -> (r: Vec<u32>)
    ensures
        ascending(r@),
        r@.to_multiset() == v@.to_multiset(),
{
    broadcast use vstd::seq_lib::group_to_multiset_ensures;

    let mut out: Vec<u32> = Vec::new();
    let mut i: usize = 0;
    while i < v.len()
        invariant
            i <= v.len(),
            ascending(out@),
            out@.to_multiset() == v@.take(i as int).to_multiset(),
        decreases v.len() - i,
    {
        let x = v[i];
        let mut k: usize = 0;
        while k < out.len() && out[k] <= x
            invariant
                k <= out.len(),
                forall|j: int| 0 <= j < k ==> out@[j] <= x,
            decreases out.len() - k,
        {
            k += 1;
        }
        let ghost before = out@;
        out.insert(k, x);
        proof {
            vstd::seq_lib::to_multiset_insert(before, k as int, x);
            vstd::seq_lib::to_multiset_build(v@.take(i as int), x);
            assert(out@ == before.insert(k as int, x));
            assert(v@.take(i + 1) =~= v@.take(i as int).push(x));
            assert(out@.to_multiset() =~= v@.take(i + 1).to_multiset());
            assert forall|a: int, b: int| 0 <= a < b < out@.len() implies out@[a] <= out@[b] by {
                if b < k {
                } else if b == k {
                } else if a < k {
                    assert(out@[b] == before[b - 1]);
                    if k < before.len() {
                        assert(before[k as int] > x);
                    }
                } else if a == k {
                    assert(before[b - 1] >= before[k as int] || b - 1 == k);
                } else {
                    assert(out@[a] == before[a - 1]);
                    assert(out@[b] == before[b - 1]);
                }
            }
        }
        i += 1;
    }
    assert(v@.take(v.len() as int) =~= v@);
    out
}

/// The name of a chip whose `name` file read as `raw`: trimmed, or `"unknown"` where it
/// could not be read.
pub fn chip_name(raw: Option<&str>) -> (r: String)
    ensures
        r@ == match raw {
            Some(s) => trim(s@),
            None => "unknown"@,
        },
{
    match raw {
        Some(s) => trim_str(s),
        None => {
            let mut r = String::new();
            push_str(&mut r, "unknown");
            assert(r@ =~= "unknown"@);
            r
        },
    }
}

/// The label of sensor `index`: the trimmed text of its label file, or `temp<index>` where
/// there is none.
pub fn sensor_label(raw: Option<&str>, index: u32) -> (r: String)
    ensures
        r@ == match raw {
            Some(s) => trim(s@),
            None => "temp"@ + decimal(index as nat),
        },
{
    match raw {
        Some(s) => trim_str(s),
        None => {
            let mut r = String::new();
            push_str(&mut r, "temp");
            push_decimal(&mut r, index as u64);
            assert(r@ =~= "temp"@ + decimal(index as nat));
            r
        },
    }
}

/// A temperature sensor by name: its chip and its label.
pub struct SensorName {
    pub chip: String,
    pub label: String,
}

/// Which field of a sensor a search looks at.
pub open spec fn sensor_field(s: SensorName, by_chip: bool) -> Seq<char> {
    if by_chip {
        s.chip@
    } else {
        s.label@
    }
}

/// Position of the first sensor whose chip (or label) is `target`.
pub open spec fn first_with(s: Seq<SensorName>, by_chip: bool, target: Seq<char>) -> Option<int>
    decreases s.len(),
{
    if s.len() == 0 {
        None
    } else {
        match first_with(s.drop_last(), by_chip, target) {
            Some(i) => Some(i),
            None => if sensor_field(s.last(), by_chip) == target {
                Some(s.len() - 1)
            } else {
                None
            },
        }
    }
}

/// The sensor that stands for the CPU: the first labelled `Tctl`, else the first labelled
/// `Package id 0`, else the first on the primary chip, else the first of all.
pub open spec fn primary_sensor(s: Seq<SensorName>, chip: Option<Seq<char>>) -> Option<int> {
    match first_with(s, false, "Tctl"@) {
        Some(i) => Some(i),
        None => match first_with(s, false, "Package id 0"@) {
            Some(i) => Some(i),
            None => match (match chip {
                Some(c) => first_with(s, true, c),
                None => None,
            }) {
                Some(i) => Some(i),
                None => if s.len() > 0 {
                    Some(0)
                } else {
                    None
                },
            },
        },
    }
}

proof fn lemma_first_with_extend(s: Seq<SensorName>, by_chip: bool, target: Seq<char>, k: int)
    requires
        0 <= k <= s.len(),
        first_with(s.take(k), by_chip, target) is Some,
    ensures
        first_with(s, by_chip, target) == first_with(s.take(k), by_chip, target),
    decreases s.len() - k,
{
    if k < s.len() {
        assert(s.take(k + 1).drop_last() =~= s.take(k));
        lemma_first_with_extend(s, by_chip, target, k + 1);
    } else {
        assert(s.take(k) =~= s);
    }
}

fn find_first(s: &Vec<SensorName>, by_chip: bool, target: &str) -> (r: Option<usize>)
    ensures
        r matches Some(i) ==> first_with(s@, by_chip, target@) == Some(i as int),
        r is None ==> first_with(s@, by_chip, target@) is None,
{
    let mut i: usize = 0;
    while i < s.len()
        invariant
            i <= s.len(),
            first_with(s@.take(i as int), by_chip, target@) is None,
        decreases s.len() - i,
    {
        let field = if by_chip {
            s[i].chip.as_str()
        } else {
            s[i].label.as_str()
        };
        let hit = str_eq(field, target);
        proof {
            assert(s@.take(i + 1).drop_last() =~= s@.take(i as int));
            assert(s@.take(i + 1).last() == s@[i as int]);
        }
        if hit {
            proof {
                lemma_first_with_extend(s@, by_chip, target@, i + 1);
            }
            return Some(i);
        }
        i += 1;
    }
    assert(s@.take(s.len() as int) =~= s@);
    None
}

/// Picks the sensor that stands for the CPU (see `primary_sensor`).
pub fn pick_primary_sensor(sensors: &Vec<SensorName>, primary_chip: Option<&str>) -> (r: Option<usize>)
    ensures
        r matches Some(i) ==> primary_sensor(
            sensors@,
            match primary_chip {
                Some(c) => Some(c@),
                None => None,
            },
        ) == Some(i as int),
        r is None ==> primary_sensor(
            sensors@,
            match primary_chip {
                Some(c) => Some(c@),
                None => None,
            },
        ) is None,
{
    match find_first(sensors, false, "Tctl") {
        Some(i) => {
            return Some(i);
        },
        None => {},
    }
    match find_first(sensors, false, "Package id 0") {
        Some(i) => {
            return Some(i);
        },
        None => {},
    }
    match primary_chip {
        Some(c) => match find_first(sensors, true, c) {
            Some(i) => {
                return Some(i);
            },
            None => {},
        },
        None => {},
    }
    if sensors.len() > 0 {
        Some(0)
    } else {
        None
    }
}

/// How a sensor is named to the user: `chip/label`.
pub fn sensor_display_name(s: &SensorName) -> (r: String)
    ensures
        r@ == s.chip@ + seq!['/'] + s.label@,
{
    let mut r = String::new();
    push_str(&mut r, s.chip.as_str());
    push_char(&mut r, '/');
    push_str(&mut r, s.label.as_str());
    r
}

} // verus!
