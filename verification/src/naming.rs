//! Output-name templating: placeholder replacement (case-insensitive), the
//! default name template, random name parts, and zero-padded numbers.

use vstd::prelude::*;

use rand::Rng;

use vstd::string::StrSliceExecFns;
use vstd::string::StringSliceAdditionalSpecFns;

use crate::paths::{spec_file_name, spec_parent};
use crate::sizes::{lower_byte, spec_lower, spec_lower_byte};

verus! {

/// Case-insensitive, left-to-right, non-overlapping replacement of one
/// pattern: at each position, if the text opens (ignoring ASCII letter case)
/// with the pattern, the replacement is taken and the scan continues after
/// the match, else one byte is kept. An empty pattern changes nothing.
pub open spec fn spec_replace_ci(s: Seq<u8>, pat: Seq<u8>, rep: Seq<u8>) -> Seq<u8>
    decreases s.len(),
{
    if pat.len() == 0 || s.len() < pat.len() {
        s
    } else if spec_lower(s.take(pat.len() as int)) == spec_lower(pat) {
        rep + spec_replace_ci(s.skip(pat.len() as int), pat, rep)
    } else {
        s.take(1) + spec_replace_ci(s.skip(1), pat, rep)
    }
}

/// Whether the text opens with the pattern, ignoring ASCII letter case, at
/// offset `at`.
fn ci_match_at(s: &[u8], at: usize, pat: &[u8]) -> (r: bool)
    requires
        at + pat@.len() <= s@.len(),
    ensures
        r == (spec_lower(s@.subrange(at as int, at as int + pat@.len() as int)) == spec_lower(
            pat@,
        )),
{
    let ghost win = s@.subrange(at as int, at as int + pat@.len() as int);
    let slen = s.len();
    let mut j: usize = 0;
    while j < pat.len()
        invariant
            j <= pat@.len(),
            slen == s@.len(),
            at + pat@.len() <= s@.len(),
            win == s@.subrange(at as int, at as int + pat@.len() as int),
            forall|q: int| 0 <= q < j ==> spec_lower_byte(win[q]) == spec_lower_byte(pat@[q]),
        decreases pat@.len() - j,
    {
        if lower_byte(s[at + j]) != lower_byte(pat[j]) {
            proof {
                assert(spec_lower(win)[j as int] != spec_lower(pat@)[j as int]);
            }
            return false;
        }
        j = j + 1;
    }
    proof {
        assert(spec_lower(win) =~= spec_lower(pat@));
    }
    true
}

/// Replaces every case-insensitive, non-overlapping occurrence of `pattern`
/// by `replacement`, scanning left to right.
pub fn replace_case_insensitive(s: &[u8], pattern: &[u8], replacement: &[u8]) -> (r: Vec<u8>)
    ensures
        r@ == spec_replace_ci(s@, pattern@, replacement@),
{
    let mut out: Vec<u8> = Vec::new();
    if pattern.len() == 0 {
        crate::records::push_bytes(&mut out, s);
        proof {
            assert(Seq::<u8>::empty() + s@ =~= s@);
        }
        return out;
    }
    let mut i: usize = 0;
    proof {
        assert(s@.skip(0) =~= s@);
        assert(Seq::<u8>::empty() + spec_replace_ci(s@, pattern@, replacement@)
            =~= spec_replace_ci(s@, pattern@, replacement@));
    }
    while s.len() - i >= pattern.len()
        invariant
            pattern@.len() >= 1,
            i <= s@.len(),
            out@ + spec_replace_ci(s@.skip(i as int), pattern@, replacement@) == spec_replace_ci(
                s@,
                pattern@,
                replacement@,
            ),
        decreases s@.len() - i,
    {
        let ghost rest = s@.skip(i as int);
        if ci_match_at(s, i, pattern) {
            proof {
                assert(rest.take(pattern@.len() as int) =~= s@.subrange(
                    i as int,
                    i as int + pattern@.len() as int,
                ));
                assert(rest.skip(pattern@.len() as int) =~= s@.skip(
                    i as int + pattern@.len() as int,
                ));
                assert((out@ + replacement@) + spec_replace_ci(
                    s@.skip(i as int + pattern@.len() as int),
                    pattern@,
                    replacement@,
                ) =~= out@ + spec_replace_ci(rest, pattern@, replacement@));
            }
            crate::records::push_bytes(&mut out, replacement);
            i = i + pattern.len();
        } else {
            proof {
                assert(rest.take(pattern@.len() as int) =~= s@.subrange(
                    i as int,
                    i as int + pattern@.len() as int,
                ));
                assert(rest.take(1) =~= seq![s@[i as int]]);
                assert(rest.skip(1) =~= s@.skip(i + 1));
                assert((out@ + seq![s@[i as int]]) + spec_replace_ci(
                    s@.skip(i + 1),
                    pattern@,
                    replacement@,
                ) =~= out@ + spec_replace_ci(rest, pattern@, replacement@));
            }
            out.push(s[i]);
            i = i + 1;
        }
    }
    proof {
        assert(spec_replace_ci(s@.skip(i as int), pattern@, replacement@) == s@.skip(i as int));
    }
    let mut k: usize = i;
    while k < s.len()
        invariant
            i <= k <= s@.len(),
            out@ + s@.skip(k as int) == spec_replace_ci(s@, pattern@, replacement@),
        decreases s@.len() - k,
    {
        proof {
            assert((out@ + seq![s@[k as int]]) + s@.skip(k + 1) =~= out@ + s@.skip(k as int));
        }
        out.push(s[k]);
        k = k + 1;
    }
    proof {
        assert(out@ + s@.skip(s@.len() as int) =~= out@);
    }
    out
}

/// Applies the replacement pairs in order, each over the previous result.
pub open spec fn spec_apply_replacements(t: Seq<u8>, values: Seq<(Seq<u8>, Seq<u8>)>) -> Seq<u8>
    decreases values.len(),
{
    if values.len() == 0 {
        t
    } else {
        spec_apply_replacements(
            spec_replace_ci(t, values[0].0, values[0].1),
            values.skip(1),
        )
    }
}

/// The replacement-pair views of an owned pair list.
pub open spec fn spec_pair_views(values: Seq<(Vec<u8>, Vec<u8>)>) -> Seq<(Seq<u8>, Seq<u8>)> {
    values.map_values(|p: (Vec<u8>, Vec<u8>)| (p.0@, p.1@))
}

/// Applies every replacement pair, in order.
pub fn apply_replacements(t: Vec<u8>, values: &Vec<(Vec<u8>, Vec<u8>)>) -> (r: Vec<u8>)
    ensures
        r@ == spec_apply_replacements(t@, spec_pair_views(values@)),
{
    let ghost pairs = spec_pair_views(values@);
    let mut cur = t;
    let mut i: usize = 0;
    proof {
        assert(pairs.skip(0) =~= pairs);
    }
    while i < values.len()
        invariant
            i <= values@.len(),
            pairs == spec_pair_views(values@),
            spec_apply_replacements(cur@, pairs.skip(i as int)) == spec_apply_replacements(
                t@,
                pairs,
            ),
        decreases values@.len() - i,
    {
        let next = replace_case_insensitive(
            cur.as_slice(),
            values[i].0.as_slice(),
            values[i].1.as_slice(),
        );
        proof {
            assert(pairs.skip(i as int)[0] == pairs[i as int]);
            assert(pairs.skip(i as int).skip(1) =~= pairs.skip(i + 1));
        }
        cur = next;
        i = i + 1;
    }
    proof {
        assert(pairs.skip(values@.len() as int).len() == 0);
    }
    cur
}

/// A character the random name part draws from: a lower-case ASCII letter
/// or a digit.
pub open spec fn spec_is_name_char(b: u8) -> bool {
    (97 <= b <= 122) || (48 <= b <= 57)
}

/// Relies on rand::Rng::random_range over `0..n`: the drawn index is always
/// below `n`. Nothing more can be said of a random value.
#[verifier::external_body]
fn random_index(n: usize) -> (r: usize)
    requires
        n > 0,
    ensures
        r < n,
{
    rand::rng().random_range(0..n)
}

/// A fresh random name part: `len` characters drawn from the lower-case
/// letters and digits.
pub fn random_string(len: usize) -> (r: Vec<u8>)
    ensures
        r@.len() == len,
        forall|i: int| 0 <= i < r@.len() ==> spec_is_name_char(#[trigger] r@[i]),
{
    let mut r: Vec<u8> = Vec::new();
    let mut i: usize = 0;
    while i < len
        invariant
            i <= len,
            r@.len() == i,
            forall|k: int| 0 <= k < r@.len() ==> spec_is_name_char(#[trigger] r@[k]),
        decreases len - i,
    {
        let idx = random_index(36);
        if idx < 26 {
            r.push(97 + idx as u8);
        } else {
            r.push(48 + (idx - 26) as u8);
        }
        i = i + 1;
    }
    r
}

/// The decimal digit bytes of a number, most significant first.
pub open spec fn spec_dec_bytes(n: nat) -> Seq<u8>
    decreases n,
{
    if n < 10 {
        seq![(48 + n) as u8]
    } else {
        spec_dec_bytes(n / 10) + seq![(48 + n % 10) as u8]
    }
}

/// A number in decimal, left-padded with zeros to at least `width` bytes.
pub open spec fn spec_pad_dec(n: nat, width: int) -> Seq<u8>
    decreases width,
{
    if spec_dec_bytes(n).len() >= width {
        spec_dec_bytes(n)
    } else {
        seq![48u8] + spec_pad_dec(n, width - 1)
    }
}

proof fn lemma_dec_bytes_len_pos(n: nat)
    ensures
        spec_dec_bytes(n).len() >= 1,
    decreases n,
{
}

/// Renders a number in decimal bytes.
pub fn dec_bytes(n: u64) -> (r: Vec<u8>)
    ensures
        r@ == spec_dec_bytes(n as nat),
    decreases n,
{
    if n < 10 {
        let mut r: Vec<u8> = Vec::new();
        r.push(48 + (n as u8));
        proof {
            assert(r@ =~= spec_dec_bytes(n as nat));
        }
        r
    } else {
        let mut r = dec_bytes(n / 10);
        r.push(48 + ((n % 10) as u8));
        proof {
            assert(r@ =~= spec_dec_bytes(n as nat));
        }
        r
    }
}

/// Renders a number zero-padded to at least `width` digits.
pub fn pad_dec(n: u64, width: usize) -> (r: Vec<u8>)
    ensures
        r@ == spec_pad_dec(n as nat, width as int),
{
    let d = dec_bytes(n);
    let mut r: Vec<u8> = Vec::new();
    let mut pad: usize = 0;
    if d.len() < width {
        pad = width - d.len();
    }
    let mut i: usize = 0;
    while i < pad
        invariant
            i <= pad,
            pad + d@.len() >= width,
            d@ == spec_dec_bytes(n as nat),
            pad > 0 ==> pad + d@.len() == width,
            r@.len() == i,
            forall|k: int| 0 <= k < r@.len() ==> #[trigger] r@[k] == 48u8,
        decreases pad - i,
    {
        r.push(48);
        i = i + 1;
    }
    crate::records::push_bytes(&mut r, d.as_slice());
    proof {
        lemma_pad_shape(n as nat, width as int);
        assert(r@ =~= spec_pad_dec(n as nat, width as int));
    }
    r
}

/// The padded form is the zeros then the digits.
proof fn lemma_pad_shape(n: nat, width: int)
    ensures
        spec_pad_dec(n, width).len() == if spec_dec_bytes(n).len() >= width {
            spec_dec_bytes(n).len() as int
        } else {
            width
        },
        forall|k: int|
            0 <= k < spec_pad_dec(n, width).len() - spec_dec_bytes(n).len() ==> spec_pad_dec(
                n,
                width,
            )[k] == 48u8,
        forall|k: int|
            0 <= k < spec_dec_bytes(n).len() ==> spec_pad_dec(n, width)[spec_pad_dec(
                n,
                width,
            ).len() - spec_dec_bytes(n).len() + k] == spec_dec_bytes(n)[k],
    decreases width,
{
    if spec_dec_bytes(n).len() < width {
        lemma_pad_shape(n, width - 1);
    }
}

/// The default name template used when the output names a directory.
pub open spec fn spec_default_template() -> Seq<u8> {
    seq![
        98u8, 97u8, 99u8, 107u8, 117u8, 112u8, 95u8, 37u8, 100u8, 97u8, 116u8, 101u8, 116u8,
        105u8, 109u8, 101u8, 37u8, 95u8, 37u8, 114u8, 97u8, 110u8, 100u8, 37u8, 46u8, 122u8,
        105u8, 112u8,
    ]
}

/// Builds "backup_%datetime%_%rand%.zip".
pub fn default_template() -> (r: Vec<u8>)
    ensures
        r@ == spec_default_template(),
{
    let mut r: Vec<u8> = Vec::new();
    r.push(98);
    r.push(97);
    r.push(99);
    r.push(107);
    r.push(117);
    r.push(112);
    r.push(95);
    r.push(37);
    r.push(100);
    r.push(97);
    r.push(116);
    r.push(101);
    r.push(116);
    r.push(105);
    r.push(109);
    r.push(101);
    r.push(37);
    r.push(95);
    r.push(37);
    r.push(114);
    r.push(97);
    r.push(110);
    r.push(100);
    r.push(37);
    r.push(46);
    r.push(122);
    r.push(105);
    r.push(112);
    proof {
        assert(r@ =~= spec_default_template());
    }
    r
}


/// A signed number in decimal bytes: a leading minus for negative values.
pub open spec fn spec_signed_dec_bytes(n: int) -> Seq<u8> {
    if n < 0 {
        seq![45u8] + spec_dec_bytes((-n) as nat)
    } else {
        spec_dec_bytes(n as nat)
    }
}

/// Renders a signed number in decimal bytes.
pub fn i64_dec_bytes(n: i64) -> (r: Vec<u8>)
    ensures
        r@ == spec_signed_dec_bytes(n as int),
{
    if n >= 0 {
        dec_bytes(n as u64)
    } else {
        let mag: u64 = ((-(n + 1)) as u64) + 1;
        proof {
            assert(mag == -(n as int));
        }
        let mut r: Vec<u8> = Vec::new();
        r.push(45);
        let mut d = dec_bytes(mag);
        r.append(&mut d);
        proof {
            assert(r@ =~= spec_signed_dec_bytes(n as int));
        }
        r
    }
}

/// The three-letter English weekday name, counted from Monday as 0.
pub open spec fn spec_weekday_bytes(w: u8) -> Seq<u8> {
    if w == 0 {
        ("Mon").spec_bytes()
    } else if w == 1 {
        ("Tue").spec_bytes()
    } else if w == 2 {
        ("Wed").spec_bytes()
    } else if w == 3 {
        ("Thu").spec_bytes()
    } else if w == 4 {
        ("Fri").spec_bytes()
    } else {
        if w == 5 {
            ("Sat").spec_bytes()
        } else {
            ("Sun").spec_bytes()
        }
    }
}

fn weekday_bytes(w: u8) -> (r: Vec<u8>)
    ensures
        r@ == spec_weekday_bytes(w),
{
    if w == 0 {
        ("Mon").as_bytes_vec()
    } else if w == 1 {
        ("Tue").as_bytes_vec()
    } else if w == 2 {
        ("Wed").as_bytes_vec()
    } else if w == 3 {
        ("Thu").as_bytes_vec()
    } else if w == 4 {
        ("Fri").as_bytes_vec()
    } else if w == 5 {
        ("Sat").as_bytes_vec()
    } else {
        ("Sun").as_bytes_vec()
    }
}

/// A civil date as `YYYY-MM-DD`.
pub open spec fn spec_date_bytes(y: int, mo: u8, d: u8) -> Seq<u8>
    recommends
        y >= 0,
{
    spec_pad_dec(y as nat, 4) + seq![45u8] + spec_pad_dec(mo as nat, 2) + seq![45u8]
        + spec_pad_dec(d as nat, 2)
}

/// A civil time as `HH-MM-SS`.
pub open spec fn spec_time_bytes(h: u8, mi: u8, sec: u8) -> Seq<u8> {
    spec_pad_dec(h as nat, 2) + seq![45u8] + spec_pad_dec(mi as nat, 2) + seq![45u8]
        + spec_pad_dec(sec as nat, 2)
}

/// A civil moment as `YYYY-MM-DD_HH-MM-SS`.
pub open spec fn spec_datetime_bytes(c: (i32, u8, u8, u8, u8, u8)) -> Seq<u8>
    recommends
        c.0 >= 0,
{
    spec_date_bytes(c.0 as int, c.1, c.2) + seq![95u8] + spec_time_bytes(c.3, c.4, c.5)
}

fn date_bytes(y: i32, mo: u8, d: u8) -> (r: Vec<u8>)
    requires
        y >= 0,
    ensures
        r@ == spec_date_bytes(y as int, mo, d),
{
    let mut r = pad_dec(y as u64, 4);
    r.push(45);
    let mut x = pad_dec(mo as u64, 2);
    r.append(&mut x);
    r.push(45);
    let mut x = pad_dec(d as u64, 2);
    r.append(&mut x);
    proof {
        assert(r@ =~= spec_date_bytes(y as int, mo, d));
    }
    r
}

fn time_bytes(h: u8, mi: u8, sec: u8) -> (r: Vec<u8>)
    ensures
        r@ == spec_time_bytes(h, mi, sec),
{
    let mut r = pad_dec(h as u64, 2);
    r.push(45);
    let mut x = pad_dec(mi as u64, 2);
    r.append(&mut x);
    r.push(45);
    let mut x = pad_dec(sec as u64, 2);
    r.append(&mut x);
    proof {
        assert(r@ =~= spec_time_bytes(h, mi, sec));
    }
    r
}

fn datetime_bytes(c: (i32, u8, u8, u8, u8, u8)) -> (r: Vec<u8>)
    requires
        c.0 >= 0,
    ensures
        r@ == spec_datetime_bytes(c),
{
    let mut r = date_bytes(c.0, c.1, c.2);
    r.push(95);
    let mut x = time_bytes(c.3, c.4, c.5);
    r.append(&mut x);
    proof {
        assert(r@ =~= spec_datetime_bytes(c));
    }
    r
}

/// The moment and identity values that fill the name template: the UTC and
/// local civil time (year, month, day, hour, minute, second), the UTC
/// weekday counted from Monday as 0, the millisecond part, the Unix
/// timestamp, two random name parts, and the working directory's name.
pub struct NameParts {
    pub utc: (i32, u8, u8, u8, u8, u8),
    pub utc_weekday: u8,
    pub millis: u16,
    pub unix: i64,
    pub local: (i32, u8, u8, u8, u8, u8),
    pub rand5: Vec<u8>,
    pub rand12: Vec<u8>,
    pub pwd: Vec<u8>,
}

/// Builds the placeholder table of the name template from one moment's
/// values: each pattern with the text that replaces it, in the order the
/// replacements are applied. Years are rendered unsigned; any real clock's
/// values are in range.
pub fn build_placeholder_values(parts: &NameParts) -> (r: Vec<(Vec<u8>, Vec<u8>)>)
    requires
        parts.utc.0 >= 0,
        parts.local.0 >= 0,
    ensures
        r@.len() == 18,
        r@[0].0@ == ("%datetime%").spec_bytes() && r@[0].1@ == spec_datetime_bytes(parts.utc),
        r@[1].0@ == ("%rand%").spec_bytes() && r@[1].1@ == parts.rand5@,
        r@[2].0@ == ("%longrand%").spec_bytes() && r@[2].1@ == parts.rand12@,
        r@[3].0@ == ("%pwd%").spec_bytes() && r@[3].1@ == parts.pwd@,
        r@[4].0@ == ("%date%").spec_bytes() && r@[4].1@ == spec_date_bytes(
            parts.utc.0 as int,
            parts.utc.1,
            parts.utc.2,
        ),
        r@[5].0@ == ("%time%").spec_bytes() && r@[5].1@ == spec_time_bytes(
            parts.utc.3,
            parts.utc.4,
            parts.utc.5,
        ),
        r@[6].0@ == ("%hh%").spec_bytes() && r@[6].1@ == spec_pad_dec(parts.utc.3 as nat, 2),
        r@[7].0@ == ("%mm%").spec_bytes() && r@[7].1@ == spec_pad_dec(parts.utc.4 as nat, 2),
        r@[8].0@ == ("%ss%").spec_bytes() && r@[8].1@ == spec_pad_dec(parts.utc.5 as nat, 2),
        r@[9].0@ == ("%dd%").spec_bytes() && r@[9].1@ == spec_pad_dec(parts.utc.2 as nat, 2),
        r@[10].0@ == ("%ww%").spec_bytes() && r@[10].1@ == spec_weekday_bytes(parts.utc_weekday),
        r@[11].0@ == ("%yyyy%").spec_bytes() && r@[11].1@ == spec_pad_dec(parts.utc.0 as nat, 4),
        r@[12].0@ == ("%yy%").spec_bytes() && r@[12].1@ == spec_pad_dec(
            (parts.utc.0 % 100) as nat,
            2,
        ),
        r@[13].0@ == ("%ms%").spec_bytes() && r@[13].1@ == spec_pad_dec(parts.millis as nat, 3),
        r@[14].0@ == ("%unix%").spec_bytes() && r@[14].1@ == spec_signed_dec_bytes(
            parts.unix as int,
        ),
        r@[15].0@ == ("%ltime%").spec_bytes() && r@[15].1@ == spec_datetime_bytes(parts.local),
        r@[16].0@ == ("%lh%").spec_bytes() && r@[16].1@ == spec_pad_dec(parts.local.3 as nat, 2),
        r@[17].0@ == ("%ld%").spec_bytes() && r@[17].1@ == spec_pad_dec(parts.local.2 as nat, 2),
{
    let mut r: Vec<(Vec<u8>, Vec<u8>)> = Vec::new();
    r.push((("%datetime%").as_bytes_vec(), datetime_bytes(parts.utc)));
    r.push((("%rand%").as_bytes_vec(), vstd::slice::slice_to_vec(parts.rand5.as_slice())));
    r.push((("%longrand%").as_bytes_vec(), vstd::slice::slice_to_vec(parts.rand12.as_slice())));
    r.push((("%pwd%").as_bytes_vec(), vstd::slice::slice_to_vec(parts.pwd.as_slice())));
    r.push((("%date%").as_bytes_vec(), date_bytes(parts.utc.0, parts.utc.1, parts.utc.2)));
    r.push((("%time%").as_bytes_vec(), time_bytes(parts.utc.3, parts.utc.4, parts.utc.5)));
    r.push((("%hh%").as_bytes_vec(), pad_dec(parts.utc.3 as u64, 2)));
    r.push((("%mm%").as_bytes_vec(), pad_dec(parts.utc.4 as u64, 2)));
    r.push((("%ss%").as_bytes_vec(), pad_dec(parts.utc.5 as u64, 2)));
    r.push((("%dd%").as_bytes_vec(), pad_dec(parts.utc.2 as u64, 2)));
    r.push((("%ww%").as_bytes_vec(), weekday_bytes(parts.utc_weekday)));
    r.push((("%yyyy%").as_bytes_vec(), pad_dec(parts.utc.0 as u64, 4)));
    r.push((("%yy%").as_bytes_vec(), pad_dec((parts.utc.0 % 100) as u64, 2)));
    r.push((("%ms%").as_bytes_vec(), pad_dec(parts.millis as u64, 3)));
    r.push((("%unix%").as_bytes_vec(), i64_dec_bytes(parts.unix)));
    r.push((("%ltime%").as_bytes_vec(), datetime_bytes(parts.local)));
    r.push((("%lh%").as_bytes_vec(), pad_dec(parts.local.3 as u64, 2)));
    r.push((("%ld%").as_bytes_vec(), pad_dec(parts.local.2 as u64, 2)));
    r
}

/// Where the last dot stands in a name, if anywhere.
pub open spec fn spec_last_dot(p: Seq<u8>) -> Option<int>
    decreases p.len(),
{
    if p.len() == 0 {
        None
    } else if p.last() == 46 {
        Some(p.len() - 1)
    } else {
        spec_last_dot(p.drop_last())
    }
}

/// Whether a path's file name carries a non-empty extension: a dot that is
/// neither its first nor its last byte.
pub open spec fn spec_has_extension(p: Seq<u8>) -> bool {
    match spec_last_dot(spec_file_name(p)) {
        None => false,
        Some(i) => 0 < i && i + 1 < spec_file_name(p).len(),
    }
}

proof fn lemma_last_dot_at(p: Seq<u8>, k: int)
    requires
        0 <= k < p.len(),
        p[k] == 46,
        forall|j: int| k < j < p.len() ==> p[j] != 46,
    ensures
        spec_last_dot(p) == Some(k),
    decreases p.len(),
{
    if k + 1 < p.len() {
        assert(p.drop_last()[k] == 46);
        lemma_last_dot_at(p.drop_last(), k);
    }
}

proof fn lemma_last_dot_none(p: Seq<u8>)
    requires
        forall|j: int| 0 <= j < p.len() ==> p[j] != 46,
    ensures
        spec_last_dot(p) is None,
    decreases p.len(),
{
    if p.len() > 0 {
        lemma_last_dot_none(p.drop_last());
    }
}

fn has_extension(p: &[u8]) -> (r: bool)
    ensures
        r == spec_has_extension(p@),
{
    let fname = crate::paths::file_name_bytes(p);
    let mut k: usize = fname.len();
    while k > 0 && fname[k - 1] != 46
        invariant
            k <= fname@.len(),
            forall|j: int| k <= j < fname@.len() ==> fname@[j] != 46,
        decreases k,
    {
        k = k - 1;
    }
    if k == 0 {
        proof {
            lemma_last_dot_none(fname@);
        }
        false
    } else {
        proof {
            lemma_last_dot_at(fname@, k - 1);
        }
        k - 1 > 0 && k < fname.len()
    }
}

/// A directory and a name joined with a separator (none added after an
/// empty directory or one already ending in a separator).
pub open spec fn spec_join(dir: Seq<u8>, name: Seq<u8>) -> Seq<u8> {
    if dir.len() == 0 {
        name
    } else if dir.last() == 47 {
        dir + name
    } else {
        dir + seq![47u8] + name
    }
}

/// What the produced output name is: when the requested output path carries
/// a file name with an extension, that name is the template and its
/// directory is kept; otherwise the requested path is the directory and the
/// default template is the name. The template's placeholders are then
/// replaced, in order, by the given values.
pub open spec fn spec_create_file_name(input: Seq<u8>, values: Seq<(Seq<u8>, Seq<u8>)>) -> Seq<
    u8,
> {
    let isf = spec_has_extension(input);
    let dir = if isf {
        match spec_parent(input) {
            Some(d) => d,
            None => Seq::<u8>::empty(),
        }
    } else {
        input
    };
    let template = if isf {
        spec_file_name(input)
    } else {
        spec_default_template()
    };
    spec_join(dir, spec_apply_replacements(template, values))
}

/// Derives the output file name from the requested output path and the
/// placeholder values (timestamps, random parts, and the like), which the
/// caller supplies as pattern/value pairs.
pub fn create_file_name(input: &[u8], values: &Vec<(Vec<u8>, Vec<u8>)>) -> (r: Vec<u8>)
    ensures
        r@ == spec_create_file_name(input@, spec_pair_views(values@)),
{
    let isf = has_extension(input);
    let dir: Vec<u8> = if isf {
        match crate::paths::parent_bytes(input) {
            Some(d) => d,
            None => Vec::new(),
        }
    } else {
        let mut d: Vec<u8> = Vec::new();
        crate::records::push_bytes(&mut d, input);
        proof {
            assert(Seq::<u8>::empty() + input@ =~= input@);
        }
        d
    };
    let template: Vec<u8> = if isf {
        crate::paths::file_name_bytes(input)
    } else {
        default_template()
    };
    let name = apply_replacements(template, values);
    let mut r = dir;
    if r.len() == 0 {
        name
    } else if r[r.len() - 1] == 47 {
        let mut r2 = r;
        let mut n2 = name;
        r2.append(&mut n2);
        proof {
            assert(r2@ =~= spec_create_file_name(input@, spec_pair_views(values@)));
        }
        r2
    } else {
        let mut r2 = r;
        r2.push(47);
        let mut n2 = name;
        r2.append(&mut n2);
        proof {
            assert(r2@ =~= spec_create_file_name(input@, spec_pair_views(values@)));
        }
        r2
    }
}

} // verus!
