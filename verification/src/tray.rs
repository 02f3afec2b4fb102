//! The tray: the texts it shows and the icon files it keeps.
use vstd::prelude::*;

use vstd::string::StrSliceExecFns;

use crate::text::{
    char_index, chars_of, decimal, decimal_is_injective, digit_char, find_char, has_prefix, push_char, push_decimal,
    push_str, range_has_prefix,
};

verus! {

/// One mebibyte.
pub const MIB: u64 = 1048576;

/// One gibibyte.
pub const GIB: u64 = 1073741824;

/// `2^e`.
pub open spec fn two_pow(e: nat) -> nat
    decreases e,
{
    if e == 0 {
        1
    } else {
        2 * two_pow((e - 1) as nat)
    }
}

/// Number of binary digits of `n` (0 for 0).
pub open spec fn bit_length(n: nat) -> nat
    decreases n,
{
    if n == 0 {
        0
    } else {
        1 + bit_length(n / 2)
    }
}

/// `n / d` rounded to nearest, ties to even.
pub open spec fn round_div_even(n: nat, d: nat) -> nat
    recommends
        d > 0,
{
    let q = n / d;
    let r = n % d;
    if 2 * r > d || (2 * r == d && q % 2 == 1) {
        q + 1
    } else {
        q
    }
}

/// The value of `n as f64`: `n` rounded to 53 significant bits, ties to even.
pub open spec fn f64_value(n: nat) -> nat {
    let l = bit_length(n);
    if l <= 53 {
        n
    } else {
        let p = two_pow((l - 53) as nat);
        round_div_even(n, p) * p
    }
}

/// How the tray shows a number of bytes: from 1 GiB on in GiB with two decimals, from
/// 1 MiB on in whole MiB, else in bytes; decimals are rounded as `{:.N}` rounds the
/// `f64` value (to nearest, ties to even).
pub open spec fn bytes_text(n: u64) -> Seq<char> {
    if n >= GIB {
        let c = round_div_even(f64_value(n as nat) * 100, GIB as nat);
        decimal(c / 100) + seq!['.', digit_char((c % 100) / 10), digit_char(c % 10)] + " GiB"@
    } else if n >= MIB {
        decimal(round_div_even(n as nat, MIB as nat)) + " MiB"@
    } else {
        decimal(n as nat) + " B"@
    }
}

proof fn lemma_two_pow_64()
    ensures
        two_pow(64) == 0x1_0000_0000_0000_0000,
{
    reveal_with_fuel(two_pow, 65);
}

proof fn lemma_bit_length_bound(n: nat, k: nat)
    requires
        n < two_pow(k),
    ensures
        bit_length(n) <= k,
    decreases k,
{
    if n > 0 {
        assert(k > 0);
        lemma_bit_length_bound(n / 2, (k - 1) as nat);
    }
}

fn bit_len(n: u64) -> (r: u32)
    ensures
        r == bit_length(n as nat),
        r <= 64,
{
    let mut l: u32 = 0;
    let mut m = n;
    proof {
        lemma_two_pow_64();
        lemma_bit_length_bound(n as nat, 64);
    }
    while m > 0
        invariant
            bit_length(n as nat) == l + bit_length(m as nat),
            bit_length(n as nat) <= 64,
        decreases m,
    {
        m = m / 2;
        l += 1;
    }
    l
}

fn pow_of_two(e: u32) -> (r: u128)
    requires
        e <= 64,
    ensures
        r == two_pow(e as nat),
{
    let mut p: u128 = 1;
    let mut k: u32 = 0;
    while k < e
        invariant
            k <= e <= 64,
            p == two_pow(k as nat),
            p <= 0x1_0000_0000_0000_0000,
        decreases e - k,
    {
        proof {
            lemma_two_pow_64();
            lemma_two_pow_mono(k as nat + 1, 64);
        }
        p = p * 2;
        k += 1;
    }
    p
}

proof fn lemma_two_pow_mono(a: nat, b: nat)
    requires
        a <= b,
    ensures
        two_pow(a) <= two_pow(b),
        two_pow(a) >= 1,
    decreases b,
{
    if b > a {
        lemma_two_pow_mono(a, (b - 1) as nat);
    } else if a > 0 {
        lemma_two_pow_mono((a - 1) as nat, (a - 1) as nat);
    }
}

fn round_div(n: u128, d: u128) -> (r: u128)
    requires
        0 < d < 0x1_0000_0000_0000_0000_0000_0000_0000,
        n < 0x1_0000_0000_0000_0000_0000_0000_0000,
    ensures
        r == round_div_even(n as nat, d as nat),
{
    let q = n / d;
    let rem = n % d;
    if 2 * rem > d || (2 * rem == d && q % 2 == 1) {
        q + 1
    } else {
        q
    }
}

fn f64_value_of(n: u64) -> (r: u128)
    ensures
        r == f64_value(n as nat),
        r <= 0x2_0000_0000_0000_0000,
{
    let l = bit_len(n);
    if l <= 53 {
        return n as u128;
    }
    let p = pow_of_two(l - 53);
    proof {
        lemma_two_pow_mono((l - 53) as nat, 64);
        lemma_two_pow_64();
    }
    let q = round_div(n as u128, p);
    let nn = n as u128;
    assert(q * p <= nn + p) by (nonlinear_arith)
        requires
            p > 0,
            q <= nn / p + 1,
    {
        assert((nn / p) * p <= nn) by (nonlinear_arith)
            requires
                p > 0,
        ;
    }
    q * p
}

/// Text of a byte count (see `bytes_text`).
pub fn format_bytes(bytes: u64) -> (r: String)
    ensures
        r@ == bytes_text(bytes),
{
    let mut s = String::new();
    if bytes >= GIB {
        let x = f64_value_of(bytes);
        let c = round_div(x * 100, GIB as u128);
        assert(c <= (x * 100) as int / (GIB as int) + 1);
        push_decimal(&mut s, (c / 100) as u64);
        push_char(&mut s, '.');
        push_char(&mut s, (((c % 100) / 10) as u8 + 48) as char);
        push_char(&mut s, ((c % 10) as u8 + 48) as char);
        push_str(&mut s, " GiB");
    } else if bytes >= MIB {
        let c = round_div(bytes as u128, MIB as u128);
        push_decimal(&mut s, c as u64);
        push_str(&mut s, " MiB");
    } else {
        push_decimal(&mut s, bytes);
        push_str(&mut s, " B");
    }
    assert(s@ =~= bytes_text(bytes));
    s
}


/// The time of day of an RFC 3339 timestamp: what follows the first `'T'` (up to a further
/// `'T'`), cut at the first `'.'`; the whole text where there is no `'T'`.
pub open spec fn short_time_text(s: Seq<char>) -> Seq<char> {
    let i = char_index(s, 'T');
    if i < s.len() {
        let rest = s.skip(i as int + 1);
        let seg = rest.take(char_index(rest, 'T') as int);
        seg.take(char_index(seg, '.') as int)
    } else {
        s
    }
}

/// The time of day of an RFC 3339 timestamp (see `short_time_text`).
pub fn short_time(rfc3339: &str) -> (r: &str)
    ensures
        r@ == short_time_text(rfc3339@),
{
    let v = chars_of(rfc3339);
    let n = v.len();
    assert(v@.subrange(0, n as int) =~= v@);
    let i = find_char(&v, 0, n, 'T');
    if i == n {
        return rfc3339;
    }
    let j = find_char(&v, i + 1, n, 'T');
    let k = find_char(&v, i + 1, j, '.');
    proof {
        let rest = v@.skip(i + 1);
        assert(rest =~= v@.subrange(i + 1, n as int));
        let seg = rest.take(char_index(rest, 'T') as int);
        assert(seg =~= v@.subrange(i + 1, j as int));
        assert(seg.take(char_index(seg, '.') as int) =~= v@.subrange(i + 1, k as int));
    }
    rfc3339.substring_char(i + 1, k)
}

/// The name that the tray's icon files start with.
pub const ICON_BASENAME: &'static str = "cpu-monitor-tray";

/// Whether a file in the icon directory is one of the tray's icons.
pub fn is_tray_icon_file(name: &str) -> (r: bool)
    ensures
        r == has_prefix(name@, "cpu-monitor-tray"@),
{
    let v = chars_of(name);
    let p = chars_of("cpu-monitor-tray");
    assert(v@.subrange(0, v.len() as int) =~= v@);
    range_has_prefix(&v, 0, v.len(), &p)
}

/// The icon name of generation `g`: `cpu-monitor-tray-<g>`.
pub open spec fn icon_name(g: u64) -> Seq<char> {
    "cpu-monitor-tray"@ + seq!['-'] + decimal(g as nat)
}

/// The generation after `g` (wrapping).
pub open spec fn next_generation(g: u64) -> u64 {
    if g == u64::MAX {
        0
    } else {
        (g + 1) as u64
    }
}

/// Different generations name different icons; in particular each redraw gets a name that
/// differs from the one before, so the panel reloads the file.
pub proof fn icon_names_differ(g1: u64, g2: u64)
    ensures
        g1 != g2 ==> icon_name(g1) != icon_name(g2),
        icon_name(next_generation(g1)) != icon_name(g1),
{
    let p = "cpu-monitor-tray"@ + seq!['-'];
    assert(icon_name(g1) == p + decimal(g1 as nat));
    assert(icon_name(g2) == p + decimal(g2 as nat));
    if icon_name(g1) == icon_name(g2) {
        assert(decimal(g1 as nat) =~= icon_name(g1).skip(p.len() as int));
        assert(decimal(g2 as nat) =~= icon_name(g2).skip(p.len() as int));
        decimal_is_injective(g1 as nat, g2 as nat);
    }
    let g3 = next_generation(g1);
    if icon_name(g3) == icon_name(g1) {
        assert(decimal(g3 as nat) =~= icon_name(g3).skip(p.len() as int));
        assert(decimal(g1 as nat) =~= icon_name(g1).skip(p.len() as int));
        decimal_is_injective(g3 as nat, g1 as nat);
    }
}

/// The icon files of the tray: each redraw gets a new name, so the panel reloads it.
pub struct IconFiles {
    generation: u64,
    current: String,
}

impl IconFiles {
    /// Redraws so far (wrapping).
    pub closed spec fn generation(self) -> u64 {
        self.generation
    }

    /// The name of the icon the panel shows now (empty before the first).
    pub closed spec fn current(self) -> Seq<char> {
        self.current@
    }

    /// No icon yet.
    pub fn new() -> (r: IconFiles)
        ensures
            r.generation() == 0,
            r.current() == Seq::<char>::empty(),
    {
        IconFiles { generation: 0, current: String::new() }
    }

    /// Starts a redraw: the next generation, and the name of its icon.
    pub fn next_name(&mut self) -> (r: String)
        ensures
            final(self).generation() == next_generation(old(self).generation()),
            final(self).current() == old(self).current(),
            r@ == icon_name(final(self).generation()),
    {
        self.generation = self.generation.wrapping_add(1);
        let mut s = String::new();
        push_str(&mut s, ICON_BASENAME);
        push_char(&mut s, '-');
        push_decimal(&mut s, self.generation);
        proof {
            reveal_strlit("cpu-monitor-tray");
        }
        assert(s@ =~= icon_name(self.generation));
        s
    }

    /// The redraw's icon is written: it becomes the current one; the previous one, if any,
    /// is returned to be removed.
    pub fn commit(&mut self, name: String) -> (r: Option<String>)
        ensures
            final(self).current() == name@,
            final(self).generation() == old(self).generation(),
            r matches Some(o) ==> o@ == old(self).current() && o@.len() > 0,
            r is None ==> old(self).current().len() == 0,
    {
        let mut old_name = name;
        std::mem::swap(&mut self.current, &mut old_name);
        if old_name.as_str().is_empty() {
            None
        } else {
            Some(old_name)
        }
    }

    /// The name of the icon the panel shows now.
    pub fn current_name(&self) -> (r: String)
        ensures
            r@ == self.current(),
    {
        self.current.clone()
    }
}

/// The file of an icon: its name with `.png`.
pub fn icon_file_name(name: &str) -> (r: String)
    ensures
        r@ == name@ + ".png"@,
{
    let mut s = String::new();
    push_str(&mut s, name);
    push_str(&mut s, ".png");
    s
}

} // verus!
