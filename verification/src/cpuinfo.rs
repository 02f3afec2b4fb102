//! Reading `/proc/cpuinfo`.
use vstd::prelude::*;

use crate::text::{
    chars_of, has_prefix, lines, next_line, parse_u32, parse_u32_range, range_has_prefix, skip_spaces,
    string_of, trim, trim_range, trim_start,
};

verus! {

/// What one line of `/proc/cpuinfo` gives for `field`: the line starts with the field's
/// name, then (after blanks) a `':'`; the value is the rest of the line, trimmed.
pub open spec fn line_field_value(line: Seq<char>, field: Seq<char>) -> Option<Seq<char>> {
    if has_prefix(line, field) {
        let rest = trim_start(line.skip(field.len() as int));
        if rest.len() > 0 && rest[0] == ':' {
            Some(trim(rest.drop_first()))
        } else {
            None
        }
    } else {
        None
    }
}

/// The value of `field` on the first line of `ls` that gives one.
pub open spec fn first_field_value(ls: Seq<Seq<char>>, field: Seq<char>) -> Option<Seq<char>>
    decreases ls.len(),
{
    if ls.len() == 0 {
        None
    } else {
        match line_field_value(ls[0], field) {
            Some(v) => Some(v),
            None => first_field_value(ls.drop_first(), field),
        }
    }
}

/// The value of `field` in the text of `/proc/cpuinfo`.
pub open spec fn cpuinfo_field(content: Seq<char>, field: Seq<char>) -> Option<Seq<char>> {
    first_field_value(lines(content), field)
}

/// Characters that the frequency lines may hold between the field's name and its value.
pub open spec fn is_mhz_filler(c: char) -> bool {
    c == ':' || c == ' ' || c == '\t'
}

/// Number of leading filler characters of `s`.
pub open spec fn filler_prefix_len(s: Seq<char>) -> nat
    decreases s.len(),
{
    if s.len() > 0 && is_mhz_filler(s[0]) {
        1 + filler_prefix_len(s.drop_first())
    } else {
        0
    }
}

/// The frequency text of one line: after `"cpu MHz"`, the leading `':'`, `' '` and
/// `'\t'` removed, then trimmed.
pub open spec fn line_mhz_text(line: Seq<char>) -> Option<Seq<char>> {
    if has_prefix(line, "cpu MHz"@) {
        let rest = line.skip("cpu MHz"@.len() as int);
        Some(trim(rest.skip(filler_prefix_len(rest) as int)))
    } else {
        None
    }
}

/// The frequency texts of the lines `ls`, in order.
pub open spec fn mhz_texts(ls: Seq<Seq<char>>) -> Seq<Seq<char>>
    decreases ls.len(),
{
    if ls.len() == 0 {
        seq![]
    } else {
        let rest = mhz_texts(ls.drop_last());
        match line_mhz_text(ls.last()) {
            Some(t) => rest.push(t),
            None => rest,
        }
    }
}

proof fn lemma_filler_prefix_len_exact(s: Seq<char>, k: int)
    requires
        0 <= k <= s.len(),
        forall|i: int| 0 <= i < k ==> is_mhz_filler(#[trigger] s[i]),
        k < s.len() ==> !is_mhz_filler(s[k]),
    ensures
        filler_prefix_len(s) == k,
    decreases k,
{
    if k > 0 {
        assert forall|i: int| 0 <= i < k - 1 implies is_mhz_filler(#[trigger] s.drop_first()[i]) by {
            assert(s.drop_first()[i] == s[i + 1]);
        }
        lemma_filler_prefix_len_exact(s.drop_first(), k - 1);
    }
}

proof fn lemma_lines_skip(v: Seq<char>, pos: int, next: int, line: Seq<char>, ls: Seq<Seq<char>>)
    requires
        lines(v.skip(pos)) == seq![line] + lines(v.skip(next)),
        ls == lines(v.skip(pos)),
    ensures
        ls.len() > 0,
        ls[0] == line,
        ls.drop_first() == lines(v.skip(next)),
{
    assert(ls.drop_first() =~= lines(v.skip(next)));
}

/// The value of `field` on line `v[lo..hi]`.
fn line_field(v: &Vec<char>, lo: usize, hi: usize, f: &Vec<char>) -> (r: Option<String>)
    requires
        lo <= hi <= v.len(),
    ensures
        r matches Some(s) ==> line_field_value(v@.subrange(lo as int, hi as int), f@) == Some(
            s@,
        ),
        r is None ==> line_field_value(v@.subrange(lo as int, hi as int), f@) is None,
{
    let ghost line = v@.subrange(lo as int, hi as int);
    if !range_has_prefix(v, lo, hi, f) {
        return None;
    }
    let start = lo + f.len();
    assert(line.skip(f.len() as int) =~= v@.subrange(start as int, hi as int));
    let a = skip_spaces(v, start, hi);
    if a < hi && v[a] == ':' {
        let (x, y) = trim_range(v, a + 1, hi);
        proof {
            let rest = v@.subrange(a as int, hi as int);
            assert(rest[0] == v@[a as int]);
            assert(rest.drop_first() =~= v@.subrange(a + 1, hi as int));
        }
        Some(string_of(v, x, y))
    } else {
        proof {
            if a < hi {
                assert(v@.subrange(a as int, hi as int)[0] == v@[a as int]);
            }
        }
        None
    }
}

/// The value that the text of `/proc/cpuinfo` gives for `field`: the first line that starts
/// with the field's name followed, after blanks, by `':'`; the rest of that line, trimmed.
pub fn parse_cpuinfo_field(content: &str, field: &str) -> (r: Option<String>)
    ensures
        r matches Some(s) ==> cpuinfo_field(content@, field@) == Some(s@),
        r is None ==> cpuinfo_field(content@, field@) is None,
{
    let v = chars_of(content);
    let f = chars_of(field);
    let n = v.len();
    let mut pos: usize = 0;
    assert(v@.skip(0) =~= v@);
    while pos < n
        invariant
            pos <= n == v.len(),
            v@ == content@,
            f@ == field@,
            cpuinfo_field(content@, field@) == first_field_value(lines(v@.skip(pos as int)), f@),
        decreases n - pos,
    {
        let (e, next) = next_line(&v, pos);
        let ghost ls = lines(v@.skip(pos as int));
        proof {
            lemma_lines_skip(v@, pos as int, next as int, v@.subrange(pos as int, e as int), ls);
        }
        let found = line_field(&v, pos, e, &f);
        match found {
            Some(s) => {
                return Some(s);
            },
            None => {},
        }
        pos = next;
    }
    assert(v@.skip(n as int) =~= Seq::<char>::empty());
    None
}

/// The frequency texts of all `"cpu MHz"` lines of `/proc/cpuinfo`, in order.
pub fn cpu_mhz_texts(content: &str) -> (r: Vec<String>)
    ensures
        r@.map_values(|s: String| s@) == mhz_texts(lines(content@)),
{
    let v = chars_of(content);
    let p = chars_of("cpu MHz");
    let n = v.len();
    let mut out: Vec<String> = Vec::new();
    let mut pos: usize = 0;
    let ghost mut done: Seq<Seq<char>> = seq![];
    assert(v@.skip(0) =~= v@);
    while pos < n
        invariant
            pos <= n == v.len(),
            v@ == content@,
            p@ == "cpu MHz"@,
            lines(content@) == done + lines(v@.skip(pos as int)),
            out@.map_values(|s: String| s@) == mhz_texts(done),
        decreases n - pos,
    {
        let (e, next) = next_line(&v, pos);
        let ghost ls = lines(v@.skip(pos as int));
        let ghost line = v@.subrange(pos as int, e as int);
        proof {
            lemma_lines_skip(v@, pos as int, next as int, line, ls);
        }
        let ghost old_out = out@;
        if range_has_prefix(&v, pos, e, &p) {
            let start = pos + p.len();
            let mut a = start;
            while a < e && (v[a] == ':' || v[a] == ' ' || v[a] == '\t')
                invariant
                    start <= a <= e <= v.len(),
                    forall|k: int| start <= k < a ==> is_mhz_filler(#[trigger] v@[k]),
                decreases e - a,
            {
                a += 1;
            }
            let (x, y) = trim_range(&v, a, e);
            proof {
                let rest = line.skip(p@.len() as int);
                assert(rest =~= v@.subrange(start as int, e as int));
                assert forall|k: int| 0 <= k < a - start implies is_mhz_filler(#[trigger] rest[k]) by {
                    assert(rest[k] == v@[start + k]);
                }
                if a < e {
                    assert(rest[a - start] == v@[a as int]);
                }
                lemma_filler_prefix_len_exact(rest, a - start);
                assert(rest.skip(a - start) =~= v@.subrange(a as int, e as int));
            }
            out.push(string_of(&v, x, y));
        }
        proof {
            let nd = done.push(line);
            assert(nd.drop_last() =~= done);
            assert(nd.last() == line);
            assert(out@.map_values(|s: String| s@) =~= mhz_texts(nd));
            assert(lines(content@) =~= nd + lines(v@.skip(next as int))) by {
                assert(ls =~= seq![line] + lines(v@.skip(next as int)));
            }
            done = nd;
        }
        pos = next;
    }
    proof {
        assert(v@.skip(n as int) =~= Seq::<char>::empty());
        assert(lines(content@) =~= done);
    }
    out
}

/// What `/proc/cpuinfo` tells of the processor.
pub struct CpuIdentity {
    pub model: Option<String>,
    pub vendor: Option<String>,
    pub physical_cores: Option<u32>,
}

/// Reads the model name, the vendor and the number of physical cores from the text of
/// `/proc/cpuinfo`; a core count that is no `u32` counts as absent.
pub fn parse_cpu_identity(content: &str) -> (r: CpuIdentity)
    ensures
        r.model matches Some(s) ==> cpuinfo_field(content@, "model name"@) == Some(s@),
        r.model is None ==> cpuinfo_field(content@, "model name"@) is None,
        r.vendor matches Some(s) ==> cpuinfo_field(content@, "vendor_id"@) == Some(s@),
        r.vendor is None ==> cpuinfo_field(content@, "vendor_id"@) is None,
        r.physical_cores == (match cpuinfo_field(content@, "cpu cores"@) {
            Some(t) => parse_u32(t),
            None => None,
        }),
{
    let model = parse_cpuinfo_field(content, "model name");
    let vendor = parse_cpuinfo_field(content, "vendor_id");
    let cores_text = parse_cpuinfo_field(content, "cpu cores");
    let physical_cores = match cores_text {
        Some(t) => {
            let tv = chars_of(t.as_str());
            assert(tv@.subrange(0, tv.len() as int) =~= tv@);
            parse_u32_range(&tv, 0, tv.len())
        },
        None => None,
    };
    CpuIdentity { model, vendor, physical_cores }
}

} // verus!
