//! Byte-count formatting and parsing: rendering a size in binary units and
//! reading back sizes given with binary (Ki/Mi/Gi/Ti) or decimal (kB/MB/
//! GB/TB) suffixes.

use vstd::prelude::*;
use vstd::arithmetic::div_mod::{lemma_div_is_ordered, lemma_div_is_ordered_by_denominator,
    lemma_div_pos_is_pos, lemma_fundamental_div_mod};
use vstd::arithmetic::mul::{lemma_mul_inequality, lemma_mul_is_commutative,
    lemma_mul_nonnegative, lemma_mul_strict_inequality, lemma_mul_upper_bound};
use vstd::string::StringExecFns;

verus! {

/// The character of one decimal digit.
pub open spec fn spec_digit_char(d: nat) -> char {
    if d == 0 {
        '0'
    } else if d == 1 {
        '1'
    } else if d == 2 {
        '2'
    } else if d == 3 {
        '3'
    } else if d == 4 {
        '4'
    } else if d == 5 {
        '5'
    } else if d == 6 {
        '6'
    } else if d == 7 {
        '7'
    } else if d == 8 {
        '8'
    } else {
        '9'
    }
}

/// The decimal digit string of a number, most significant digit first, with
/// no leading zero except for the number 0 itself.
pub open spec fn spec_dec_digits(n: nat) -> Seq<char>
    decreases n,
{
    if n < 10 {
        seq![spec_digit_char(n)]
    } else {
        spec_dec_digits(n / 10) + seq![spec_digit_char(n % 10)]
    }
}

fn digit_str(d: u64) -> (s: &'static str)
    requires
        d < 10,
    ensures
        s@ == seq![spec_digit_char(d as nat)],
{
    proof {
        reveal_strlit("0");
        reveal_strlit("1");
        reveal_strlit("2");
        reveal_strlit("3");
        reveal_strlit("4");
        reveal_strlit("5");
        reveal_strlit("6");
        reveal_strlit("7");
        reveal_strlit("8");
        reveal_strlit("9");
    }
    let s = match d {
        0 => "0",
        1 => "1",
        2 => "2",
        3 => "3",
        4 => "4",
        5 => "5",
        6 => "6",
        7 => "7",
        8 => "8",
        _ => "9",
    };
    proof {
        assert(s@ =~= seq![spec_digit_char(d as nat)]);
    }
    s
}

/// Renders a number in decimal.
pub fn u64_to_dec(n: u64) -> (s: String)
    ensures
        s@ == spec_dec_digits(n as nat),
    decreases n,
{
    if n < 10 {
        String::from_str(digit_str(n))
    } else {
        let mut s = u64_to_dec(n / 10);
        s.append(digit_str(n % 10));
        proof {
            assert(s@ =~= spec_dec_digits(n as nat));
        }
        s
    }
}

/// The divisor of each binary unit step, by unit index 0 ("B") to 5 ("PiB").
pub open spec fn spec_unit_divisor(u: int) -> u64 {
    if u <= 0 {
        1
    } else if u == 1 {
        1024
    } else if u == 2 {
        0x100000
    } else if u == 3 {
        0x40000000
    } else if u == 4 {
        0x10000000000
    } else {
        0x4000000000000
    }
}

/// The unit a byte count is displayed in: the largest of the six binary
/// units that the count reaches.
pub open spec fn spec_unit_index(bytes: u64) -> int {
    if bytes >= 0x4000000000000 {
        5
    } else if bytes >= 0x10000000000 {
        4
    } else if bytes >= 0x40000000 {
        3
    } else if bytes >= 0x100000 {
        2
    } else if bytes >= 1024 {
        1
    } else {
        0
    }
}

/// The display suffix of each unit index.
pub open spec fn spec_unit_suffix(u: int) -> Seq<char> {
    if u <= 0 {
        " B"@
    } else if u == 1 {
        " KiB"@
    } else if u == 2 {
        " MiB"@
    } else if u == 3 {
        " GiB"@
    } else if u == 4 {
        " TiB"@
    } else {
        " PiB"@
    }
}

/// A byte count scaled to its display unit, in tenths, rounded half to
/// even.
pub open spec fn spec_scaled_tenths(bytes: u64) -> int {
    let p = spec_unit_divisor(spec_unit_index(bytes)) as int;
    let q = (bytes * 10) / p;
    let r = (bytes * 10) % p;
    if 2 * r > p || (2 * r == p && q % 2 == 1) {
        q + 1
    } else {
        q
    }
}

/// The human-friendly rendering of a byte count in binary units: a plain
/// integer when the unit divides the count exactly, else the scaled value
/// with one decimal digit (tenths rounded half to even), then the unit
/// suffix.
pub open spec fn spec_encode_size(bytes: u64) -> Seq<char> {
    if bytes == 0 {
        "0 B"@
    } else {
        let u = spec_unit_index(bytes);
        let p = spec_unit_divisor(u) as int;
        if bytes as int % p == 0 {
            spec_dec_digits((bytes as int / p) as nat) + spec_unit_suffix(u)
        } else {
            let t = spec_scaled_tenths(bytes);
            spec_dec_digits((t / 10) as nat) + seq!['.'] + seq![spec_digit_char((t % 10) as nat)]
                + spec_unit_suffix(u)
        }
    }
}

fn scaled_tenths(bytes: u64, p: u64) -> (t: u64)
    requires
        p == spec_unit_divisor(spec_unit_index(bytes)),
    ensures
        t == spec_scaled_tenths(bytes),
{
    let prod: u128 = (bytes as u128) * 10;
    let q: u128 = prod / (p as u128);
    let r: u128 = prod % (p as u128);
    proof {
        if p == 1 {
            assert(bytes < 1024);
        } else {
            lemma_div_is_ordered_by_denominator(bytes as int * 10, 1024, p as int);
            lemma_div_is_ordered(bytes as int * 10, 0xffffffffffffffffint * 10, 1024);
        }
        assert(q < u64::MAX);
    }
    let wide: u128 = if 2 * r > p as u128 || (2 * r == p as u128 && q % 2 == 1) {
        q + 1
    } else {
        q
    };
    wide as u64
}

/// Renders a byte count with binary units, scaling into the largest unit
/// reached: a plain integer when the unit divides the count exactly, else
/// with one decimal digit.
pub fn encode_size(bytes: u64) -> (s: String)
    ensures
        s@ == spec_encode_size(bytes),
{
    if bytes == 0 {
        return String::from_str("0 B");
    }
    let (p, suffix): (u64, &'static str) = if bytes >= 0x4000000000000 {
        (0x4000000000000, " PiB")
    } else if bytes >= 0x10000000000 {
        (0x10000000000, " TiB")
    } else if bytes >= 0x40000000 {
        (0x40000000, " GiB")
    } else if bytes >= 0x100000 {
        (0x100000, " MiB")
    } else if bytes >= 1024 {
        (1024, " KiB")
    } else {
        (1, " B")
    };
    let mut s: String;
    if bytes % p == 0 {
        s = u64_to_dec(bytes / p);
    } else {
        let t = scaled_tenths(bytes, p);
        s = u64_to_dec(t / 10);
        proof {
            reveal_strlit(".");
        }
        s.append(".");
        s.append(digit_str(t % 10));
    }
    s.append(suffix);
    proof {
        assert(s@ =~= spec_encode_size(bytes));
    }
    s
}

/// Sums entry sizes; nothing if the total leaves the 64-bit range.
pub open spec fn spec_total_size(sizes: Seq<u64>) -> int
    decreases sizes.len(),
{
    if sizes.len() == 0 {
        0
    } else {
        spec_total_size(sizes.drop_last()) + sizes.last()
    }
}

/// The total of all file sizes, or nothing when it leaves the 64-bit range.
pub fn total_size(sizes: &Vec<u64>) -> (r: Option<u64>)
    ensures
        r matches Some(t) ==> t == spec_total_size(sizes@),
        r is None <==> spec_total_size(sizes@) > u64::MAX,
{
    let mut total: u64 = 0;
    let mut i: usize = 0;
    proof {
        assert(sizes@.take(0) =~= Seq::<u64>::empty());
    }
    while i < sizes.len()
        invariant
            i <= sizes@.len(),
            total == spec_total_size(sizes@.take(i as int)),
        decreases sizes@.len() - i,
    {
        proof {
            assert(sizes@.take(i + 1).drop_last() =~= sizes@.take(i as int));
            assert(sizes@.take(i + 1).last() == sizes@[i as int]);
            lemma_total_size_prefix_le(sizes@, i + 1);
        }
        total = match total.checked_add(sizes[i]) {
            Some(t) => t,
            None => {
                return None;
            },
        };
        i = i + 1;
    }
    proof {
        assert(sizes@.take(sizes@.len() as int) =~= sizes@);
    }
    Some(total)
}

/// A partial total never exceeds the whole total.
proof fn lemma_total_size_prefix_le(sizes: Seq<u64>, i: int)
    requires
        0 <= i <= sizes.len(),
    ensures
        spec_total_size(sizes.take(i)) <= spec_total_size(sizes),
    decreases sizes.len() - i,
{
    if i == sizes.len() {
        assert(sizes.take(i) =~= sizes);
    } else {
        assert(sizes.take(i + 1).drop_last() =~= sizes.take(i));
        lemma_total_size_prefix_le(sizes, i + 1);
    }
}

/// Whether a total breaches a configured limit; a limit of 0 means
/// unlimited.
pub fn exceeds_limit(total: u64, limit: u64) -> (b: bool)
    ensures
        b == (limit > 0 && total > limit),
{
    limit > 0 && total > limit
}

/// ASCII whitespace, as trimmed around size strings.
pub open spec fn spec_is_space(b: u8) -> bool {
    b == 32 || b == 9 || b == 10 || b == 13
}

pub open spec fn spec_trim_start(s: Seq<u8>) -> Seq<u8>
    decreases s.len(),
{
    if s.len() > 0 && spec_is_space(s[0]) {
        spec_trim_start(s.subrange(1, s.len() as int))
    } else {
        s
    }
}

pub open spec fn spec_trim_end(s: Seq<u8>) -> Seq<u8>
    decreases s.len(),
{
    if s.len() > 0 && spec_is_space(s.last()) {
        spec_trim_end(s.drop_last())
    } else {
        s
    }
}

/// The sequence with ASCII whitespace removed from both ends.
pub open spec fn spec_trim(s: Seq<u8>) -> Seq<u8> {
    spec_trim_end(spec_trim_start(s))
}

fn is_space_byte(b: u8) -> (r: bool)
    ensures
        r == spec_is_space(b),
{
    b == 32 || b == 9 || b == 10 || b == 13
}

/// Copies the input with ASCII whitespace trimmed from both ends.
pub fn trim_bytes(s: &[u8]) -> (r: Vec<u8>)
    ensures
        r@ == spec_trim(s@),
{
    let mut i: usize = 0;
    proof {
        assert(s@.subrange(0, s@.len() as int) =~= s@);
    }
    while i < s.len() && is_space_byte(s[i])
        invariant
            i <= s@.len(),
            spec_trim_start(s@) == spec_trim_start(s@.subrange(i as int, s@.len() as int)),
        decreases s@.len() - i,
    {
        proof {
            assert(s@.subrange(i as int, s@.len() as int).subrange(
                1,
                s@.len() - i,
            ) =~= s@.subrange(i + 1, s@.len() as int));
        }
        i = i + 1;
    }
    let ghost ts = s@.subrange(i as int, s@.len() as int);
    proof {
        assert(spec_trim_start(s@) == ts);
    }
    let mut j: usize = s.len();
    while j > i && is_space_byte(s[j - 1])
        invariant
            i <= j <= s@.len(),
            spec_trim_end(ts) == spec_trim_end(s@.subrange(i as int, j as int)),
        decreases j,
    {
        proof {
            assert(s@.subrange(i as int, j as int).drop_last() =~= s@.subrange(
                i as int,
                j - 1,
            ));
        }
        j = j - 1;
    }
    proof {
        assert(spec_trim_end(ts) == s@.subrange(i as int, j as int));
    }
    let mut r: Vec<u8> = Vec::new();
    let mut k: usize = i;
    while k < j
        invariant
            i <= k <= j <= s@.len(),
            r@ == s@.subrange(i as int, k as int),
        decreases j - k,
    {
        r.push(s[k]);
        proof {
            assert(s@.subrange(i as int, k as int).push(s@[k as int]) =~= s@.subrange(
                i as int,
                k + 1,
            ));
        }
        k = k + 1;
    }
    r
}

/// ASCII lower case of one byte.
pub open spec fn spec_lower_byte(b: u8) -> u8 {
    if 65 <= b <= 90 {
        (b + 32) as u8
    } else {
        b
    }
}

/// ASCII lower case of one byte, executable form.
pub fn lower_byte(b: u8) -> (r: u8)
    ensures
        r == spec_lower_byte(b),
{
    if 65 <= b && b <= 90 {
        b + 32
    } else {
        b
    }
}

/// ASCII lower case, byte for byte.
pub open spec fn spec_lower(s: Seq<u8>) -> Seq<u8> {
    s.map_values(|b: u8| spec_lower_byte(b))
}

/// Copies the input lowered to ASCII lower case.
pub fn lower_bytes(s: &Vec<u8>) -> (r: Vec<u8>)
    ensures
        r@ == spec_lower(s@),
{
    let mut r: Vec<u8> = Vec::new();
    let mut k: usize = 0;
    while k < s.len()
        invariant
            k <= s@.len(),
            r@ == spec_lower(s@.subrange(0, k as int)),
        decreases s@.len() - k,
    {
        let b = s[k];
        if 65 <= b && b <= 90 {
            r.push(b + 32);
        } else {
            r.push(b);
        }
        proof {
            assert(spec_lower(s@.subrange(0, k as int)).push(spec_lower_byte(s@[k as int]))
                =~= spec_lower(s@.subrange(0, k + 1)));
        }
        k = k + 1;
    }
    proof {
        assert(s@.subrange(0, s@.len() as int) =~= s@);
    }
    r
}

/// The multiplier named by a trailing unit suffix of a lowered size string,
/// and how many bytes the suffix takes: binary units Ki/Mi/Gi/Ti, decimal
/// units kB/MB/GB/TB, or none.
pub open spec fn spec_suffix_multiplier(t: Seq<u8>) -> (u64, int) {
    if t.len() >= 2 {
        let a = t[t.len() - 2];
        let b = t.last();
        if a == 107 && b == 105 {
            (1024, 2)
        } else if a == 109 && b == 105 {
            (0x100000, 2)
        } else if a == 103 && b == 105 {
            (0x40000000, 2)
        } else if a == 116 && b == 105 {
            (0x10000000000, 2)
        } else if a == 107 && b == 98 {
            (1000, 2)
        } else if a == 109 && b == 98 {
            (1000000, 2)
        } else if a == 103 && b == 98 {
            (1000000000, 2)
        } else if a == 116 && b == 98 {
            (1000000000000, 2)
        } else {
            (1, 0)
        }
    } else {
        (1, 0)
    }
}

fn suffix_multiplier(t: &Vec<u8>) -> (r: (u64, usize))
    ensures
        r.0 == spec_suffix_multiplier(t@).0,
        r.1 == spec_suffix_multiplier(t@).1,
{
    if t.len() >= 2 {
        let a = t[t.len() - 2];
        let b = t[t.len() - 1];
        if a == 107 && b == 105 {
            (1024, 2)
        } else if a == 109 && b == 105 {
            (0x100000, 2)
        } else if a == 103 && b == 105 {
            (0x40000000, 2)
        } else if a == 116 && b == 105 {
            (0x10000000000, 2)
        } else if a == 107 && b == 98 {
            (1000, 2)
        } else if a == 109 && b == 98 {
            (1000000, 2)
        } else if a == 103 && b == 98 {
            (1000000000, 2)
        } else if a == 116 && b == 98 {
            (1000000000000, 2)
        } else {
            (1, 0)
        }
    } else {
        (1, 0)
    }
}

/// Where the first decimal point stands, if anywhere.
pub open spec fn spec_dot_index(s: Seq<u8>) -> Option<int>
    decreases s.len(),
{
    if s.len() == 0 {
        None
    } else if s[0] == 46 {
        Some(0int)
    } else {
        match spec_dot_index(s.subrange(1, s.len() as int)) {
            Some(j) => Some(j + 1),
            None => None,
        }
    }
}

proof fn lemma_dot_index_at(s: Seq<u8>, k: int)
    requires
        0 <= k < s.len(),
        s[k] == 46,
        forall|j: int| 0 <= j < k ==> s[j] != 46,
    ensures
        spec_dot_index(s) == Some(k),
    decreases k,
{
    if k > 0 {
        lemma_dot_index_at(s.subrange(1, s.len() as int), k - 1);
    }
}

proof fn lemma_dot_index_none(s: Seq<u8>)
    requires
        forall|j: int| 0 <= j < s.len() ==> s[j] != 46,
    ensures
        spec_dot_index(s) is None,
    decreases s.len(),
{
    if s.len() > 0 {
        lemma_dot_index_none(s.subrange(1, s.len() as int));
    }
}

/// A decimal digit byte.
pub open spec fn spec_is_digit(b: u8) -> bool {
    48 <= b <= 57
}

pub open spec fn spec_all_digits(s: Seq<u8>) -> bool {
    forall|k: int| 0 <= k < s.len() ==> spec_is_digit(#[trigger] s[k])
}

/// The number a digit string denotes.
pub open spec fn spec_digits_val(s: Seq<u8>) -> int
    decreases s.len(),
{
    if s.len() == 0 {
        0
    } else {
        spec_digits_val(s.drop_last()) * 10 + (s.last() - 48)
    }
}

proof fn lemma_digits_val_nonneg(s: Seq<u8>)
    requires
        spec_all_digits(s),
    ensures
        spec_digits_val(s) >= 0,
    decreases s.len(),
{
    if s.len() > 0 {
        assert(spec_all_digits(s.drop_last()));
        lemma_digits_val_nonneg(s.drop_last());
    }
}

proof fn lemma_digits_val_prefix_le(s: Seq<u8>, k: int)
    requires
        spec_all_digits(s),
        0 <= k <= s.len(),
    ensures
        spec_digits_val(s.take(k)) <= spec_digits_val(s),
    decreases s.len() - k,
{
    assert(spec_all_digits(s.take(k)));
    lemma_digits_val_nonneg(s.take(k));
    if k < s.len() {
        assert(s.take(k + 1).drop_last() =~= s.take(k));
        lemma_digits_val_prefix_le(s, k + 1);
    } else {
        assert(s.take(k) =~= s);
    }
}

/// 10 to the `k`.
pub open spec fn spec_pow10(k: int) -> int
    decreases k,
{
    if k <= 0 {
        1
    } else {
        10 * spec_pow10(k - 1)
    }
}

proof fn lemma_digits_val_bound(s: Seq<u8>)
    requires
        spec_all_digits(s),
    ensures
        spec_digits_val(s) < spec_pow10(s.len() as int),
    decreases s.len(),
{
    if s.len() > 0 {
        assert(spec_all_digits(s.drop_last()));
        lemma_digits_val_bound(s.drop_last());
    }
}

/// Reads the digit range `[lo, hi)`; nothing when a byte is not a digit or
/// the value leaves the 64-bit range.
fn digits_value(v: &Vec<u8>, lo: usize, hi: usize) -> (r: Option<u64>)
    requires
        lo <= hi <= v@.len(),
    ensures
        r matches Some(x) ==> spec_all_digits(v@.subrange(lo as int, hi as int)) && x
            == spec_digits_val(v@.subrange(lo as int, hi as int)),
        r is None <==> !spec_all_digits(v@.subrange(lo as int, hi as int)) || spec_digits_val(
            v@.subrange(lo as int, hi as int),
        ) > u64::MAX,
{
    let ghost whole = v@.subrange(lo as int, hi as int);
    let mut val: u64 = 0;
    let mut k: usize = lo;
    while k < hi
        invariant
            lo <= k <= hi <= v@.len(),
            whole == v@.subrange(lo as int, hi as int),
            spec_all_digits(v@.subrange(lo as int, k as int)),
            val == spec_digits_val(v@.subrange(lo as int, k as int)),
        decreases hi - k,
    {
        let b = v[k];
        proof {
            assert(v@.subrange(lo as int, k + 1).drop_last() =~= v@.subrange(
                lo as int,
                k as int,
            ));
            assert(v@.subrange(lo as int, k + 1).last() == v@[k as int]);
        }
        if !(48 <= b && b <= 57) {
            proof {
                assert(whole[k - lo] == v@[k as int]);
            }
            return None;
        }
        let v10 = match val.checked_mul(10) {
            Some(x) => x,
            None => {
                proof {
                    lemma_overflow_means_big(v@, lo as int, hi as int, k + 1);
                }
                return None;
            },
        };
        let next = match v10.checked_add((b - 48) as u64) {
            Some(x) => x,
            None => {
                proof {
                    lemma_overflow_means_big(v@, lo as int, hi as int, k + 1);
                }
                return None;
            },
        };
        val = next;
        k = k + 1;
    }
    proof {
        assert(v@.subrange(lo as int, hi as int) =~= whole);
    }
    Some(val)
}

/// If some digit prefix already denotes more than the 64-bit range holds,
/// so does the whole range (or it is not all digits).
proof fn lemma_overflow_means_big(s: Seq<u8>, lo: int, hi: int, k: int)
    requires
        0 <= lo <= k <= hi <= s.len(),
        spec_all_digits(s.subrange(lo, k)),
        spec_digits_val(s.subrange(lo, k)) > u64::MAX,
    ensures
        !spec_all_digits(s.subrange(lo, hi)) || spec_digits_val(s.subrange(lo, hi)) > u64::MAX,
{
    if spec_all_digits(s.subrange(lo, hi)) {
        assert(s.subrange(lo, hi).take(k - lo) =~= s.subrange(lo, k));
        lemma_digits_val_prefix_le(s.subrange(lo, hi), k - lo);
    }
}

fn pow10(k: usize) -> (r: u64)
    requires
        k <= 9,
    ensures
        r == spec_pow10(k as int),
        1 <= r <= 1000000000,
{
    proof {
        assert(spec_pow10(0) == 1);
        assert(spec_pow10(1) == 10);
        assert(spec_pow10(2) == 100);
        assert(spec_pow10(3) == 1000);
        assert(spec_pow10(4) == 10000);
        assert(spec_pow10(5) == 100000);
        assert(spec_pow10(6) == 1000000);
        assert(spec_pow10(7) == 10000000);
        assert(spec_pow10(8) == 100000000);
        assert(spec_pow10(9) == 1000000000);
    }
    match k {
        0 => 1,
        1 => 10,
        2 => 100,
        3 => 1000,
        4 => 10000,
        5 => 100000,
        6 => 1000000,
        7 => 10000000,
        8 => 100000000,
        _ => 1000000000,
    }
}

proof fn lemma_div_strict_bound(a: int, b: int, c: int)
    requires
        0 <= a,
        0 < c,
        a < b * c,
    ensures
        a / c < b,
{
    lemma_fundamental_div_mod(a, c);
    vstd::arithmetic::div_mod::lemma_mod_bound(a, c);
    if a / c >= b {
        lemma_mul_inequality(b, a / c, c);
    }
}

/// What `parse_size` accepts and yields: the input trimmed and lowered, an
/// optional unit suffix read off the end, the rest trimmed again and read as
/// digits with an optional decimal point (of the fraction, the first nine
/// digits count), scaled by the unit's multiplier, rounded down. Nothing for
/// any other shape, or when the scaled value leaves the 64-bit range.
pub open spec fn spec_parse_size(s: Seq<u8>) -> Option<u64> {
    let t = spec_lower(spec_trim(s));
    let mult = spec_suffix_multiplier(t).0;
    let cut = spec_suffix_multiplier(t).1;
    let n = spec_trim(t.take(t.len() - cut));
    match spec_dot_index(n) {
        None => if n.len() > 0 && spec_all_digits(n) {
            let v = spec_digits_val(n) * mult;
            if v <= u64::MAX {
                Some(v as u64)
            } else {
                None
            }
        } else {
            None
        },
        Some(di) => {
            let ip = n.take(di);
            let fr = n.subrange(di + 1, n.len() as int);
            let fe = fr.take(if fr.len() > 9 { 9int } else { fr.len() as int });
            if ip.len() + fr.len() > 0 && spec_all_digits(ip) && spec_all_digits(fr) {
                let v = spec_digits_val(ip) * mult + spec_digits_val(fe) * mult / spec_pow10(
                    fe.len() as int,
                );
                if v <= u64::MAX {
                    Some(v as u64)
                } else {
                    None
                }
            } else {
                None
            }
        },
    }
}

/// Parses a human-readable size: plain digits, binary-unit suffixes Ki, Mi,
/// Gi, Ti, decimal-unit suffixes kB, MB, GB, TB (any letter case), and an
/// optional decimal fraction, as in `512Mi`, `2.5GB` or `1024`.
pub fn parse_size(s: &[u8]) -> (r: Option<u64>)
    ensures
        r == spec_parse_size(s@),
{
    let t0 = trim_bytes(s);
    let mut t = lower_bytes(&t0);
    let (mult, cut) = suffix_multiplier(&t);
    let ghost tv = t@;
    proof {
        assert(mult >= 1 && mult <= 0x10000000000);
    }
    let keep = t.len() - cut;
    t.truncate(keep);
    proof {
        assert(t@ =~= tv.take(tv.len() - spec_suffix_multiplier(tv).1));
    }
    let n = trim_bytes(t.as_slice());
    // Find the decimal point, if any.
    let mut k: usize = 0;
    while k < n.len() && n[k] != 46
        invariant
            k <= n@.len(),
            forall|j: int| 0 <= j < k ==> n@[j] != 46,
        decreases n@.len() - k,
    {
        k = k + 1;
    }
    if k == n.len() {
        // No decimal point: the whole rest must be digits.
        proof {
            lemma_dot_index_none(n@);
        }
        if n.len() == 0 {
            return None;
        }
        let iv = match digits_value(&n, 0, n.len()) {
            Some(x) => x,
            None => {
                proof {
                    assert(n@.subrange(0, n@.len() as int) =~= n@);
                    lemma_value_scaled_big(n@, mult);
                }
                return None;
            },
        };
        proof {
            assert(n@.subrange(0, n@.len() as int) =~= n@);
        }
        scale_value(iv, 0, 1, mult)
    } else {
        let di = k;
        proof {
            lemma_dot_index_at(n@, di as int);
        }
        if n.len() == 1 {
            // Only the decimal point.
            return None;
        }
        let iv = match digits_value(&n, 0, di) {
            Some(x) => x,
            None => {
                proof {
                    lemma_int_part_bad(n@, di as int, mult);
                    let fr = n@.subrange(di + 1, n@.len() as int);
                    let fe = fr.take(if fr.len() > 9 { 9int } else { fr.len() as int });
                    if spec_all_digits(fr) {
                        assert(spec_all_digits(fe)) by {
                            assert(forall|q: int|
                                0 <= q < fe.len() ==> #[trigger] fe[q] == fr[q]);
                        }
                        lemma_digits_val_nonneg(fe);
                        lemma_pow10_pos(fe.len() as int);
                        lemma_mul_nonnegative(spec_digits_val(fe), mult as int);
                        lemma_div_pos_is_pos(
                            spec_digits_val(fe) * mult,
                            spec_pow10(fe.len() as int),
                        );
                    }
                }
                return None;
            },
        };
        proof {
            assert(n@.subrange(0, di as int) =~= n@.take(di as int));
        }
        // The whole fraction must be digits, though only the first nine
        // carry into the value.
        let mut j: usize = di + 1;
        while j < n.len() && 48 <= n[j] && n[j] <= 57
            invariant
                di + 1 <= j <= n@.len(),
                di < n@.len(),
                spec_all_digits(n@.subrange(di + 1, j as int)),
            decreases n@.len() - j,
    {
            proof {
                assert(n@.subrange(di + 1, j + 1).drop_last() =~= n@.subrange(
                    di + 1,
                    j as int,
                ));
                assert(n@.subrange(di + 1, j + 1).last() == n@[j as int]);
            }
            j = j + 1;
        }
        if j < n.len() {
            // A non-digit inside the fraction.
            proof {
                assert(n@.subrange(di + 1, n@.len() as int)[j - di - 1] == n@[j as int]);
            }
            return None;
        }
        proof {
            assert(n@.subrange(di + 1, n@.len() as int) =~= n@.subrange(di + 1, j as int));
        }
        let frac_all = n.len() - di - 1;
        let fk: usize = if frac_all > 9 {
            9
        } else {
            frac_all
        };
        let fv = match digits_value(&n, di + 1, di + 1 + fk) {
            Some(x) => x,
            None => {
                proof {
                    // Nine digits always fit the 64-bit range.
                    lemma_nine_digits_fit(n@, di as int, fk as int);
                }
                return None;
            },
        };
        let p10 = pow10(fk);
        proof {
            assert(n@.subrange(di + 1, di + 1 + fk) =~= n@.subrange(
                di + 1,
                n@.len() as int,
            ).take(fk as int));
            lemma_digits_val_bound(n@.subrange(di + 1, di + 1 + fk));
        }
        scale_value(iv, fv, p10, mult)
    }
}

/// A digit range of at most nine digits always denotes a value within the
/// 64-bit range.
proof fn lemma_nine_digits_fit(n: Seq<u8>, di: int, fk: int)
    requires
        0 <= di,
        di + 1 + fk <= n.len(),
        0 <= fk <= 9,
        spec_all_digits(n.subrange(di + 1, n.len() as int)),
    ensures
        spec_all_digits(n.subrange(di + 1, di + 1 + fk)),
        spec_digits_val(n.subrange(di + 1, di + 1 + fk)) <= u64::MAX,
{
    let fe = n.subrange(di + 1, di + 1 + fk);
    assert(spec_all_digits(fe)) by {
        assert(forall|q: int|
            0 <= q < fk ==> #[trigger] fe[q] == n.subrange(di + 1, n.len() as int)[q]);
    }
    lemma_digits_val_bound(fe);
    lemma_pow10_le(fk, 9);
    assert(spec_pow10(9) == 1000000000) by {
        assert(spec_pow10(0) == 1);
        assert(spec_pow10(1) == 10);
        assert(spec_pow10(2) == 100);
        assert(spec_pow10(3) == 1000);
        assert(spec_pow10(4) == 10000);
        assert(spec_pow10(5) == 100000);
        assert(spec_pow10(6) == 1000000);
        assert(spec_pow10(7) == 10000000);
        assert(spec_pow10(8) == 100000000);
    }
}

/// If the integer digits alone leave the 64-bit range (or are not digits),
/// the scaled size does too.
proof fn lemma_value_scaled_big(n: Seq<u8>, mult: u64)
    requires
        mult >= 1,
        !spec_all_digits(n) || spec_digits_val(n) > u64::MAX,
    ensures
        !spec_all_digits(n) || spec_digits_val(n) * mult > u64::MAX,
{
    if spec_all_digits(n) {
        lemma_digits_val_nonneg(n);
        lemma_mul_inequality(1, mult as int, spec_digits_val(n));
    }
}

proof fn lemma_int_part_bad(n: Seq<u8>, di: int, mult: u64)
    requires
        mult >= 1,
        0 <= di <= n.len(),
        !spec_all_digits(n.subrange(0, di)) || spec_digits_val(n.subrange(0, di)) > u64::MAX,
    ensures
        !spec_all_digits(n.take(di)) || spec_digits_val(n.take(di)) * mult > u64::MAX,
{
    assert(n.subrange(0, di) =~= n.take(di));
    lemma_value_scaled_big(n.take(di), mult);
}

proof fn lemma_frac_part_bad(n: Seq<u8>, di: int, mult: u64)
    requires
        0 <= di < n.len(),
        n.len() - di - 1 <= 9,
        !spec_all_digits(n.subrange(di + 1, n.len() as int)) || spec_digits_val(
            n.subrange(di + 1, n.len() as int),
        ) > u64::MAX,
    ensures
        !spec_all_digits(n.subrange(di + 1, n.len() as int)),
{
    let fr = n.subrange(di + 1, n.len() as int);
    if spec_all_digits(fr) {
        lemma_digits_val_bound(fr);
        lemma_pow10_le(fr.len() as int, 9);
        assert(spec_pow10(9) == 1000000000) by {
            assert(spec_pow10(0) == 1);
            assert(spec_pow10(1) == 10);
            assert(spec_pow10(2) == 100);
            assert(spec_pow10(3) == 1000);
            assert(spec_pow10(4) == 10000);
            assert(spec_pow10(5) == 100000);
            assert(spec_pow10(6) == 1000000);
            assert(spec_pow10(7) == 10000000);
            assert(spec_pow10(8) == 100000000);
        }
    }
}

proof fn lemma_pow10_le(a: int, b: int)
    requires
        a <= b,
    ensures
        spec_pow10(a) <= spec_pow10(b),
    decreases b,
{
    if a < b && b > 0 {
        lemma_pow10_le(a, b - 1);
        assert(spec_pow10(b - 1) >= 1) by {
            lemma_pow10_pos(b - 1);
        }
    }
}

proof fn lemma_pow10_pos(k: int)
    ensures
        spec_pow10(k) >= 1,
    decreases k,
{
    if k > 0 {
        lemma_pow10_pos(k - 1);
    }
}

/// Combines the parsed parts: integer value times the multiplier plus the
/// scaled fraction, or nothing when the result leaves the 64-bit range.
fn scale_value(iv: u64, fv: u64, p10: u64, mult: u64) -> (r: Option<u64>)
    requires
        mult >= 1,
        mult <= 0x10000000000,
        p10 >= 1,
        p10 <= 1000000000,
        fv < p10,
    ensures
        ({
            let v = iv * mult + (fv * mult) as int / p10 as int;
            if v <= u64::MAX {
                r == Some(v as u64)
            } else {
                r is None
            }
        }),
{
    proof {
        lemma_mul_upper_bound(iv as int, u64::MAX as int, mult as int, 0x10000000000);
        lemma_mul_upper_bound(fv as int, 1000000000, mult as int, 0x10000000000);
    }
    let whole: u128 = (iv as u128) * (mult as u128);
    let frac: u128 = (fv as u128) * (mult as u128) / (p10 as u128);
    proof {
        lemma_mul_strict_inequality(fv as int, p10 as int, mult as int);
        lemma_mul_is_commutative(fv as int, mult as int);
        lemma_mul_is_commutative(p10 as int, mult as int);
        lemma_div_strict_bound(fv as int * mult as int, mult as int, p10 as int);
    }
    let total = whole + frac;
    if total <= u64::MAX as u128 {
        Some(total as u64)
    } else {
        None
    }
}

} // verus!
