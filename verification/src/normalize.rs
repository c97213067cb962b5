//! Record normalization: nested-field lookup by dotted path, timestamp
//! extraction with magnitude-based unit inference, host extraction and
//! canonicalization, path fingerprinting, and timestamp plausibility.

use vstd::prelude::*;
use vstd::string::{StrSliceExecFns, StringExecFns, StringSliceAdditionalSpecFns};
use crate::record::Record;

verus! {

/// Whether `j` is the first index of `c` in `s`.
pub open spec fn first_char_at(s: Seq<char>, c: char, j: int) -> bool {
    &&& 0 <= j < s.len()
    &&& s[j] == c
    &&& forall|l: int| 0 <= l < j ==> s[l] != c
}

/// The first index of `c` in `s`, if `c` occurs at all.
pub open spec fn first_index_of(s: Seq<char>, c: char) -> Option<int> {
    if exists|j: int| first_char_at(s, c, j) {
        Some(choose|j: int| first_char_at(s, c, j))
    } else {
        None
    }
}

/// The first index of `c` in `s`, scanning left to right.
pub fn find_first_char(s: &str, c: char) -> (r: Option<usize>)
    ensures
        match r {
            Option::Some(i) => first_char_at(s@, c, i as int) && first_index_of(s@, c) == Some(
                i as int,
            ),
            Option::None => first_index_of(s@, c) is None,
        },
{
    let n = s.unicode_len();
    let mut i: usize = 0;
    while i < n
        invariant
            i <= n,
            n == s@.len(),
            forall|l: int| 0 <= l < i ==> s@[l] != c,
        decreases n - i,
    {
        if s.get_char(i) == c {
            proof {
                assert(first_char_at(s@, c, i as int));
                let j = choose|j: int| first_char_at(s@, c, j);
                assert(j == i as int);
            }
            return Some(i);
        }
        i += 1;
    }
    proof {
        assert(forall|j: int| !first_char_at(s@, c, j));
    }
    None
}

/// The dot-separated segments of `s`, as `split('.')` yields them: an
/// empty input gives one empty segment, and empty segments are kept.
pub open spec fn split_dots(s: Seq<char>) -> Seq<Seq<char>>
    decreases s.len(),
{
    match first_index_of(s, '.') {
        Some(i) => seq![s.take(i)] + split_dots(s.skip(i + 1)),
        None => seq![s],
    }
}

/// Splits `path` at every dot, keeping empty segments.
pub fn split_path(path: &str) -> (r: Vec<String>)
    ensures
        r.deep_view() == split_dots(path@),
    decreases path@.len(),
{
    match find_first_char(path, '.') {
        Option::Some(i) => {
            let n = path.unicode_len();
            let head = path.substring_char(0, i).to_owned();
            let rest = path.substring_char(i + 1, n);
            proof {
                assert(rest@ == path@.skip(i + 1));
            }
            let mut r = split_path(rest);
            r.insert(0, head);
            proof {
                assert(r.deep_view() =~= seq![head@] + split_dots(path@.skip(i as int + 1)));
            }
            r
        },
        Option::None => {
            let mut r: Vec<String> = Vec::new();
            r.push(path.to_owned());
            proof {
                assert(r.deep_view() =~= seq![path@]);
            }
            r
        },
    }
}

/// Whether `j` is the index of the first entry of `o` under the key `k`.
pub open spec fn first_key_at(o: Seq<(Vec<u8>, Record)>, k: Seq<u8>, j: int) -> bool {
    &&& 0 <= j < o.len()
    &&& o[j].0@ == k
    &&& forall|l: int| 0 <= l < j ==> o[l].0@ != k
}

/// The value under the first entry of `o` with key `k`, if any.
pub open spec fn obj_lookup(o: Seq<(Vec<u8>, Record)>, k: Seq<u8>) -> Option<Record> {
    if exists|j: int| first_key_at(o, k, j) {
        Some(o[choose|j: int| first_key_at(o, k, j)].1)
    } else {
        None
    }
}

/// Whether every character of `s` is a decimal digit.
pub open spec fn all_digits(s: Seq<char>) -> bool {
    forall|i: int| 0 <= i < s.len() ==> ('0' <= #[trigger] s[i] && s[i] <= '9')
}

/// The number the digit characters of `s` spell out.
pub open spec fn digits_val(s: Seq<char>) -> int
    decreases s.len(),
{
    if s.len() == 0 {
        0
    } else {
        digits_val(s.drop_last()) * 10 + (s.last() as int - 48)
    }
}

/// The digits of a sequence index: an optional leading `+`, then at
/// least one digit, as `usize::from_str` accepts.
pub open spec fn index_digits(s: Seq<char>) -> Option<Seq<char>> {
    if s.len() > 0 && s[0] == '+' {
        if s.len() > 1 && all_digits(s.skip(1)) {
            Some(s.skip(1))
        } else {
            None
        }
    } else if s.len() > 0 && all_digits(s) {
        Some(s)
    } else {
        None
    }
}

/// The sequence index a path segment denotes, when it parses as one
/// that fits the machine's index type.
pub open spec fn parse_index_spec(s: Seq<char>) -> Option<int> {
    match index_digits(s) {
        Some(d) => if digits_val(d) <= usize::MAX {
            Some(digits_val(d))
        } else {
            None
        },
        None => None,
    }
}

/// The value of a digit sequence is never negative.
pub proof fn lemma_digits_nonneg(s: Seq<char>)
    requires
        all_digits(s),
    ensures
        digits_val(s) >= 0,
    decreases s.len(),
{
    if s.len() > 0 {
        assert(all_digits(s.drop_last()));
        lemma_digits_nonneg(s.drop_last());
    }
}

/// A digit sequence is worth at least any of its prefixes.
pub proof fn lemma_digits_prefix(s: Seq<char>, i: int)
    requires
        all_digits(s),
        0 <= i <= s.len(),
    ensures
        digits_val(s.take(i)) <= digits_val(s),
    decreases s.len() - i,
{
    if i < s.len() {
        lemma_digits_prefix(s, i + 1);
        assert(s.take(i + 1).drop_last() =~= s.take(i));
        assert(all_digits(s.take(i)));
        lemma_digits_nonneg(s.take(i));
        assert(digits_val(s.take(i + 1)) == digits_val(s.take(i)) * 10 + (s[i] as int - 48));
    } else {
        assert(s.take(i) =~= s);
    }
}

/// Parses a path segment as a sequence index.
#[verifier::loop_isolation(false)]
pub fn parse_index(seg: &str) -> (r: Option<usize>)
    ensures
        match r {
            Option::Some(i) => parse_index_spec(seg@) == Some(i as int),
            Option::None => parse_index_spec(seg@) is None,
        },
{
    let n = seg.unicode_len();
    let start: usize = if n > 0 && seg.get_char(0) == '+' {
        1
    } else {
        0
    };
    if n == start {
        return None;
    }
    let ghost d = seg@.skip(start as int);
    proof {
        if start == 0 {
            assert(d =~= seg@);
        }
    }
    let mut acc: u128 = 0;
    let mut i: usize = start;
    while i < n
        invariant
            start <= i <= n,
            n == seg@.len(),
            start == 0 || (seg@.len() > 0 && seg@[0] == '+' && start == 1),
            n > start,
            d == seg@.skip(start as int),
            all_digits(d.take(i - start)),
            acc == digits_val(d.take(i - start)),
            acc <= usize::MAX,
        decreases n - i,
    {
        let c = seg.get_char(i);
        if c < '0' || c > '9' {
            proof {
                if index_digits(seg@) is Some {
                    let dd = index_digits(seg@)->0;
                    assert(dd == d);
                    assert(dd[i - start] == c);
                }
            }
            return None;
        }
        let digit: u128 = (c as u32 as u128) - 48;
        acc = acc * 10 + digit;
        proof {
            assert(d.take(i - start + 1).drop_last() =~= d.take(i - start));
        }
        i += 1;
        if acc > usize::MAX as u128 {
            proof {
                if index_digits(seg@) is Some {
                    let dd = index_digits(seg@)->0;
                    assert(dd == d);
                    assert(d.take(i - start) =~= d.take((i - start) as int));
                    lemma_digits_prefix(d, i - start);
                }
            }
            return None;
        }
    }
    proof {
        assert(d.take(i - start) =~= d);
        assert(index_digits(seg@) == Some(d));
    }
    Some(acc as usize)
}

/// The value a dotted path reaches in `v`: map segments look keys up,
/// sequence segments parse as indices; any miss yields nothing.
pub open spec fn lookup_spec(v: Record, segs: Seq<Seq<char>>) -> Option<Record>
    decreases segs.len(),
{
    if segs.len() == 0 {
        Some(v)
    } else {
        match v {
            Record::Obj(o) => match obj_lookup(o@, vstd::utf8::encode_utf8(segs[0])) {
                Some(child) => lookup_spec(child, segs.drop_first()),
                None => None,
            },
            Record::Arr(a) => match parse_index_spec(segs[0]) {
                Some(i) => if 0 <= i < a@.len() {
                    lookup_spec(a@[i], segs.drop_first())
                } else {
                    None
                },
                None => None,
            },
            _ => None,
        }
    }
}

/// Walks the dotted `path` down the record tree: map segments look up a
/// key, sequence segments parse as a non-negative index; any missing
/// key, out-of-range index, or scalar in the way yields nothing, never
/// an error.
#[verifier::loop_isolation(false)]
pub fn get_nested_value<'a>(value: &'a Record, path: &str) -> (r: Option<&'a Record>)
    ensures
        match lookup_spec(*value, split_dots(path@)) {
            Some(rv) => r is Some && *r->0 == rv,
            None => r is None,
        },
{
    let segs = split_path(path);
    let ghost full = split_dots(path@);
    let mut cur: &Record = value;
    let mut i: usize = 0;
    proof {
        assert(full.skip(0) =~= full);
    }
    while i < segs.len()
        invariant
            i <= segs@.len(),
            full == segs.deep_view(),
            lookup_spec(*value, full) == lookup_spec(*cur, full.skip(i as int)),
        decreases segs.len() - i,
    {
        proof {
            assert(full.skip(i as int).len() > 0);
            assert(full.skip(i as int)[0] == segs@[i as int]@);
            assert(full.skip(i as int).drop_first() =~= full.skip(i as int + 1));
        }
        match cur {
            Record::Obj(o) => {
                let kb = segs[i].as_str().as_bytes_vec();
                match crate::record::obj_find(o, &kb) {
                    Option::Some(j) => {
                        proof {
                            assert(first_key_at(o@, kb@, j as int));
                            let jj = choose|jj: int| first_key_at(o@, kb@, jj);
                            assert(jj == j as int);
                        }
                        cur = &o[j].1;
                    },
                    Option::None => {
                        proof {
                            assert(forall|j: int| !first_key_at(o@, kb@, j));
                        }
                        return None;
                    },
                }
            },
            Record::Arr(a) => {
                match parse_index(segs[i].as_str()) {
                    Option::Some(idx) => {
                        if idx < a.len() {
                            cur = &a[idx];
                        } else {
                            return None;
                        }
                    },
                    Option::None => {
                        return None;
                    },
                }
            },
            _ => {
                return None;
            },
        }
        i += 1;
    }
    proof {
        assert(full.skip(i as int) =~= Seq::<Seq<char>>::empty());
    }
    Some(cur)
}

/// Whether every byte of `s` is a decimal digit.
pub open spec fn all_digit_bytes(s: Seq<u8>) -> bool {
    forall|i: int| 0 <= i < s.len() ==> (0x30 <= #[trigger] s[i] && s[i] <= 0x39)
}

/// The number the digit bytes of `s` spell out.
pub open spec fn bdigits_val(s: Seq<u8>) -> int
    decreases s.len(),
{
    if s.len() == 0 {
        0
    } else {
        bdigits_val(s.drop_last()) * 10 + (s.last() - 0x30)
    }
}

/// The value of a digit-byte sequence is never negative.
pub proof fn lemma_bdigits_nonneg(s: Seq<u8>)
    requires
        all_digit_bytes(s),
    ensures
        bdigits_val(s) >= 0,
    decreases s.len(),
{
    if s.len() > 0 {
        assert(all_digit_bytes(s.drop_last()));
        lemma_bdigits_nonneg(s.drop_last());
    }
}

/// A digit-byte sequence is worth at least any of its prefixes.
pub proof fn lemma_bdigits_prefix(s: Seq<u8>, i: int)
    requires
        all_digit_bytes(s),
        0 <= i <= s.len(),
    ensures
        bdigits_val(s.take(i)) <= bdigits_val(s),
    decreases s.len() - i,
{
    if i < s.len() {
        lemma_bdigits_prefix(s, i + 1);
        assert(s.take(i + 1).drop_last() =~= s.take(i));
        assert(all_digit_bytes(s.take(i)));
        lemma_bdigits_nonneg(s.take(i));
        assert(bdigits_val(s.take(i + 1)) == bdigits_val(s.take(i)) * 10 + (s[i] - 0x30));
    } else {
        assert(s.take(i) =~= s);
    }
}

/// Whether `j` is the first index of the byte `b` in `s`.
pub open spec fn first_byte_at(s: Seq<u8>, b: u8, j: int) -> bool {
    &&& 0 <= j < s.len()
    &&& s[j] == b
    &&& forall|l: int| 0 <= l < j ==> s[l] != b
}

/// Ten to the `n`.
pub open spec fn pow10(n: nat) -> int
    decreases n,
{
    if n == 0 {
        1
    } else {
        10 * pow10((n - 1) as nat)
    }
}

/// The first six fraction digits of a decimal, as microseconds.
pub open spec fn frac_micros_spec(fp: Seq<u8>) -> int {
    if fp.len() >= 6 {
        bdigits_val(fp.take(6))
    } else {
        bdigits_val(fp) * pow10((6 - fp.len()) as nat)
    }
}

/// The shape of a plain decimal number: an optional sign, at least one
/// integer digit, and optionally a dot followed by at least one
/// fraction digit. Yields the sign, the integer part, and the fraction
/// as microseconds; an integer part beyond the machine's signed range,
/// or any other byte, yields nothing.
pub open spec fn decimal_body(s: Seq<u8>) -> Seq<u8> {
    if s.len() > 0 && (s[0] == 0x2d || s[0] == 0x2b) {
        s.drop_first()
    } else {
        s
    }
}

pub open spec fn parse_decimal_spec(s: Seq<u8>) -> Option<(bool, int, int)> {
    let neg = s.len() > 0 && s[0] == 0x2d;
    let body = decimal_body(s);
    if exists|j: int| first_byte_at(decimal_body(s), 0x2e, j) {
        let j = choose|j: int| first_byte_at(decimal_body(s), 0x2e, j);
        let ip = body.take(j);
        let fp = body.skip(j + 1);
        if ip.len() > 0 && all_digit_bytes(ip) && fp.len() > 0 && all_digit_bytes(fp)
            && bdigits_val(ip) <= i64::MAX {
            Some((neg, bdigits_val(ip), frac_micros_spec(fp)))
        } else {
            None
        }
    } else {
        if body.len() > 0 && all_digit_bytes(body) && bdigits_val(body) <= i64::MAX {
            Some((neg, bdigits_val(body), 0))
        } else {
            None
        }
    }
}

/// The digit bytes of `s` between `from` and `to`, as a number, built
/// up left to right with an overflow bound; yields nothing when a
/// non-digit stands in the range or the value exceeds the bound.
#[verifier::loop_isolation(false)]
fn digits_value_range(s: &[u8], from: usize, to: usize) -> (r: Option<u64>)
    requires
        from <= to <= s@.len(),
    ensures
        match r {
            Option::Some(v) => all_digit_bytes(s@.subrange(from as int, to as int)) && v
                == bdigits_val(s@.subrange(from as int, to as int)) && v <= i64::MAX,
            Option::None => !(all_digit_bytes(s@.subrange(from as int, to as int)) && bdigits_val(
                s@.subrange(from as int, to as int),
            ) <= i64::MAX),
        },
{
    let ghost d = s@.subrange(from as int, to as int);
    let mut acc: u128 = 0;
    let mut i: usize = from;
    while i < to
        invariant
            from <= i <= to,
            all_digit_bytes(d.take(i - from)),
            acc == bdigits_val(d.take(i - from)),
            acc <= i64::MAX,
        decreases to - i,
    {
        let c = s[i];
        if c < 0x30 || c > 0x39 {
            proof {
                assert(d[i - from] == c);
            }
            return None;
        }
        acc = acc * 10 + ((c - 0x30) as u128);
        proof {
            assert(d.take(i - from + 1).drop_last() =~= d.take(i - from));
        }
        i += 1;
        if acc > i64::MAX as u128 {
            proof {
                assert(d.take(i - from) =~= d.take((i - from) as int));
                if all_digit_bytes(d) {
                    lemma_bdigits_prefix(d, i - from);
                }
            }
            return None;
        }
    }
    proof {
        assert(d.take(i - from) =~= d);
    }
    Some(acc as u64)
}

/// The first index of the byte `b` in `s` at or after `from`.
#[verifier::loop_isolation(false)]
fn find_byte_from(s: &[u8], from: usize, b: u8) -> (r: Option<usize>)
    requires
        from <= s@.len(),
    ensures
        match r {
            Option::Some(i) => from <= i < s@.len() && first_byte_at(
                s@.skip(from as int),
                b,
                i - from,
            ),
            Option::None => forall|j: int| !first_byte_at(s@.skip(from as int), b, j),
        },
{
    let ghost d = s@.skip(from as int);
    let mut i: usize = from;
    while i < s.len()
        invariant
            from <= i <= s@.len(),
            forall|l: int| 0 <= l < i - from ==> d[l] != b,
        decreases s@.len() - i,
    {
        if s[i] == b {
            proof {
                assert(d[i - from] == b);
            }
            return Some(i);
        }
        i += 1;
    }
    None
}

/// Parses a plain decimal number out of `b`: sign, integer part, and
/// the fraction as microseconds.
#[verifier::rlimit(30)]
#[verifier::loop_isolation(false)]
pub fn parse_decimal(b: &[u8]) -> (r: Option<(bool, u64, u32)>)
    ensures
        match r {
            Option::Some(p) => parse_decimal_spec(b@) == Some((p.0, p.1 as int, p.2 as int))
                && p.1 <= i64::MAX && p.2 < 1000000,
            Option::None => parse_decimal_spec(b@) is None,
        },
{
    let neg = b.len() > 0 && b[0] == 0x2d;
    let start: usize = if b.len() > 0 && (b[0] == 0x2d || b[0] == 0x2b) {
        1
    } else {
        0
    };
    let ghost body = decimal_body(b@);
    proof {
        assert(body =~= b@.skip(start as int));
    }
    match find_byte_from(b, start, 0x2e) {
        Option::Some(dot) => {
            proof {
                assert(first_byte_at(decimal_body(b@), 0x2e, dot - start));
                let j = choose|j: int| first_byte_at(decimal_body(b@), 0x2e, j);
                assert(j == dot - start);
                assert(body.take(dot - start) =~= b@.subrange(start as int, dot as int));
                assert(body.skip(dot - start + 1) =~= b@.subrange(dot + 1, b@.len() as int));
            }
            if dot == start {
                return None;
            }
            let ip = match digits_value_range(b, start, dot) {
                Option::Some(v) => v,
                Option::None => {
                    return None;
                },
            };
            if dot + 1 == b.len() {
                return None;
            }
            let fcount: usize = if b.len() - (dot + 1) < 6 {
                b.len() - (dot + 1)
            } else {
                6
            };
            let ghost fp = b@.subrange(dot + 1, b@.len() as int);
            let fhead = match digits_value_range(b, dot + 1, dot + 1 + fcount) {
                Option::Some(v) => v,
                Option::None => {
                    proof {
                        assert(b@.subrange(dot + 1, dot + 1 + fcount) =~= fp.take(
                            fcount as int,
                        ));
                        if all_digit_bytes(fp) {
                            assert(all_digit_bytes(fp.take(fcount as int)));
                            lemma_bdigits_bound(fp.take(fcount as int));
                            lemma_bdigits_nonneg(fp.take(fcount as int));
                            lemma_pow10_le6(fcount as nat);
                        }
                    }
                    return None;
                },
            };
            // the remaining fraction digits only need to be digits
            let mut k: usize = dot + 1 + fcount;
            while k < b.len()
                invariant
                    dot + 1 + fcount <= k <= b@.len(),
                    forall|l: int|
                        fcount <= l < k - (dot + 1) ==> (0x30 <= #[trigger] fp[l] && fp[l]
                            <= 0x39),
                    fp == b@.subrange(dot + 1, b@.len() as int),
                    fcount <= fp.len(),
                decreases b@.len() - k,
            {
                let c = b[k];
                if c < 0x30 || c > 0x39 {
                    proof {
                        assert(fp[k - (dot + 1)] == c);
                    }
                    return None;
                }
                k += 1;
            }
            proof {
                assert(b@.subrange(dot + 1, dot + 1 + fcount) =~= fp.take(fcount as int));
                assert(all_digit_bytes(fp));
                if fp.len() >= 6 {
                    assert(fcount == 6);
                    assert(frac_micros_spec(fp) == bdigits_val(fp.take(6)));
                    lemma_bdigits_nonneg(fp.take(6));
                    lemma_bdigits_bound(fp.take(6));
                } else {
                    assert(fcount == fp.len());
                    assert(fp.take(fcount as int) =~= fp);
                    lemma_bdigits_nonneg(fp);
                    lemma_bdigits_bound(fp);
                }
            }
            let fmicros: u64 = if fcount == 6 {
                fhead
            } else {
                proof {
                    lemma_pow10_vals();
                    assert(fp.take(fcount as int) =~= fp);
                }
                let mut m: u64 = fhead;
                let mut e: usize = fcount;
                while e < 6
                    invariant
                        fcount <= e <= 6,
                        fcount == fp.len(),
                        m == bdigits_val(fp) * pow10((e - fcount) as nat),
                        bdigits_val(fp) < pow10(fp.len()),
                        bdigits_val(fp) >= 0,
                        m < pow10(e as nat),
                        fp.len() < 6,
                    decreases 6 - e,
                {
                    proof {
                        lemma_pow10_vals();
                        lemma_pow10_pos((e - fcount) as nat);
                        let p = pow10((e - fcount) as nat);
                        assert(pow10((e + 1 - fcount) as nat) == 10 * p);
                        assert(bdigits_val(fp) * (10 * p) == (bdigits_val(fp) * p) * 10)
                            by (nonlinear_arith);
                        assert(pow10((e + 1) as nat) == 10 * pow10(e as nat));
                        assert(pow10(e as nat) <= 100000);
                    }
                    m = m * 10;
                    e += 1;
                }
                m
            };
            proof {
                lemma_pow10_vals();
                assert(ip as int == bdigits_val(body.take(dot - start)));
                assert(fmicros as int == frac_micros_spec(fp));
                assert(fp == body.skip(dot - start + 1));
                assert(first_byte_at(decimal_body(b@), 0x2e, dot - start));
                assert(exists|j: int| first_byte_at(decimal_body(b@), 0x2e, j));
                let jj = choose|j: int| first_byte_at(decimal_body(b@), 0x2e, j);
                assert(jj == dot - start);
                assert(body.take(jj).len() > 0);
                assert(all_digit_bytes(body.take(jj)));
                assert(body.skip(jj + 1).len() > 0);
                assert(all_digit_bytes(body.skip(jj + 1)));
                assert(bdigits_val(body.take(jj)) <= i64::MAX);
                assert(parse_decimal_spec(b@) is Some);
                assert((parse_decimal_spec(b@)->0).0 == neg);
                assert((parse_decimal_spec(b@)->0).1 == bdigits_val(body.take(dot - start)));
                assert((parse_decimal_spec(b@)->0).2 == frac_micros_spec(fp));
            }
            Some((neg, ip, fmicros as u32))
        },
        Option::None => {
            proof {
                assert(forall|j: int| !first_byte_at(decimal_body(b@), 0x2e, j));
            }
            if b.len() == start {
                return None;
            }
            proof {
                assert(body =~= b@.subrange(start as int, b@.len() as int));
            }
            match digits_value_range(b, start, b.len()) {
                Option::Some(v) => Some((neg, v, 0)),
                Option::None => None,
            }
        },
    }
}

/// A power of ten up to the sixth stays within a million.
pub proof fn lemma_pow10_le6(n: nat)
    requires
        n <= 6,
    ensures
        pow10(n) <= 1000000,
{
    lemma_pow10_vals();
    if n == 0 {
    } else if n == 1 {
    } else if n == 2 {
    } else if n == 3 {
    } else if n == 4 {
    } else if n == 5 {
    } else {
        assert(n == 6);
    }
}

/// The value of `n` digits stays under ten to the `n`, and every power
/// of ten is positive.
pub proof fn lemma_bdigits_bound(s: Seq<u8>)
    requires
        all_digit_bytes(s),
    ensures
        bdigits_val(s) < pow10(s.len()),
    decreases s.len(),
{
    if s.len() > 0 {
        assert(all_digit_bytes(s.drop_last()));
        lemma_bdigits_bound(s.drop_last());
    }
}

/// Powers of ten are positive.
pub proof fn lemma_pow10_pos(n: nat)
    ensures
        pow10(n) >= 1,
    decreases n,
{
    if n > 0 {
        lemma_pow10_pos((n - 1) as nat);
    }
}

/// The small powers of ten, spelled out.
pub proof fn lemma_pow10_vals()
    ensures
        pow10(0) == 1,
        pow10(1) == 10,
        pow10(2) == 100,
        pow10(3) == 1000,
        pow10(4) == 10000,
        pow10(5) == 100000,
        pow10(6) == 1000000,
{
    assert(pow10(0) == 1);
    assert(pow10(1) == 10);
    assert(pow10(2) == 100);
    assert(pow10(3) == 1000);
    assert(pow10(4) == 10000);
    assert(pow10(5) == 100000);
    assert(pow10(6) == 1000000);
}

/// `x`, negated when `neg` is set.
pub open spec fn signed_of(neg: bool, x: int) -> int {
    if neg {
        -x
    } else {
        x
    }
}

/// The magnitude-based unit inference over a decimal number of
/// magnitude `ip + f/1e6` (with `f` the fraction in microseconds):
/// above 1e18 the number is read as nanoseconds, above 1e15 as
/// microseconds, above 1e12 as milliseconds, else as seconds; the
/// result is the time as microseconds since the epoch (sub-microsecond
/// precision is dropped).
pub open spec fn unit_scaled_micros(neg: bool, ip: int, f: int) -> int {
    if ip > 1000000000000000000 || (ip == 1000000000000000000 && f > 0) {
        signed_of(neg, ip / 1000)
    } else if ip > 1000000000000000 || (ip == 1000000000000000 && f > 0) {
        signed_of(neg, ip)
    } else if ip > 1000000000000 || (ip == 1000000000000 && f > 0) {
        signed_of(neg, ip * 1000 + f / 1000)
    } else {
        signed_of(neg, ip * 1000000 + f)
    }
}

/// Applies the unit inference to a parsed decimal.
pub fn scaled_epoch_micros(neg: bool, ip: u64, f: u32) -> (r: i64)
    requires
        ip <= i64::MAX,
        f < 1000000,
    ensures
        r as int == unit_scaled_micros(neg, ip as int, f as int),
{
    let q: u64 = if ip > 1000000000000000000 || (ip == 1000000000000000000 && f > 0) {
        ip / 1000
    } else if ip > 1000000000000000 || (ip == 1000000000000000 && f > 0) {
        ip
    } else if ip > 1000000000000 || (ip == 1000000000000 && f > 0) {
        ip * 1000 + (f / 1000) as u64
    } else {
        ip * 1000000 + f as u64
    };
    if neg {
        -(q as i64)
    } else {
        q as i64
    }
}

/// The unit inference over an integer number.
pub open spec fn epoch_micros_of_int(n: int) -> int {
    unit_scaled_micros(n < 0, if n < 0 { -n } else { n }, 0)
}

/// Converts a numeric epoch value to microseconds since the epoch,
/// inferring its unit from its magnitude.
pub fn epoch_from_number(n: i64) -> (r: i64)
    ensures
        r as int == epoch_micros_of_int(n as int),
{
    let neg = n < 0;
    let a: u64 = if n < 0 {
        (-(n as i128)) as u64
    } else {
        n as u64
    };
    if a == 9223372036854775808 {
        // the one magnitude beyond i64::MAX: in the nanoseconds range
        let q: u64 = a / 1000;
        return -(q as i64);
    }
    scaled_epoch_micros(neg, a, 0)
}

/// The unit inference over a fractional-seconds number `m / 1e6`: a
/// magnitude above 1e12 seconds is read as milliseconds.
pub open spec fn epoch_micros_of_frac(m: int) -> int {
    let a = if m < 0 { -m } else { m };
    unit_scaled_micros(m < 0, a / 1000000, a % 1000000)
}

/// Converts a fractional-seconds number to microseconds since the
/// epoch, inferring its unit from its magnitude.
pub fn epoch_from_micros_value(m: i64) -> (r: i64)
    ensures
        r as int == epoch_micros_of_frac(m as int),
{
    let neg = m < 0;
    let a: u128 = if m < 0 {
        (-(m as i128)) as u128
    } else {
        m as u128
    };
    let ip: u64 = (a / 1000000) as u64;
    let f: u32 = (a % 1000000) as u32;
    scaled_epoch_micros(neg, ip, f)
}

/// What chrono reads out of an RFC-3339 string: epoch seconds and the
/// microseconds past the second, a function of the bytes alone.
pub uninterp spec fn rfc3339_epoch_of(b: Seq<u8>) -> Option<(i64, u32)>;

/// What chrono reads out of a string under an explicit format: epoch
/// seconds and the microseconds past the second, a function of the
/// bytes and the format alone.
pub uninterp spec fn strptime_epoch_of(b: Seq<u8>, fmt: Seq<char>) -> Option<(i64, u32)>;

/// Relies on chrono::DateTime::parse_from_rfc3339; the bounds come from
/// chrono's documented datetime range (about 262,000 years around the
/// epoch) and from timestamp_subsec_micros, which stays under two
/// million even across a leap second. The name stands for the whole
/// composite read (UTF-8 check, parse, epoch extraction), which is a
/// function of the bytes alone.
#[verifier::external_body]
fn rfc3339_epoch(b: &[u8]) -> (r: Option<(i64, u32)>)
    ensures
        r == rfc3339_epoch_of(b@),
        r is Some ==> -9000000000000 <= (r->0).0 <= 9000000000000 && (r->0).1 < 2000000,
{
    let s = match core::str::from_utf8(b) {
        Ok(s) => s,
        Err(_) => return None,
    };
    match chrono::DateTime::parse_from_rfc3339(s) {
        Ok(dt) => Some((dt.timestamp(), dt.timestamp_subsec_micros())),
        Err(_) => None,
    }
}

/// Relies on chrono::NaiveDateTime::parse_from_str, reading the result
/// as UTC; the bounds come from chrono's documented datetime range and
/// from timestamp_subsec_micros. The name stands for the whole
/// composite read (UTF-8 check, parse, epoch extraction), a function
/// of the bytes and the format alone (no locale is involved).
#[verifier::external_body]
fn strptime_epoch(b: &[u8], fmt: &str) -> (r: Option<(i64, u32)>)
    ensures
        r == strptime_epoch_of(b@, fmt@),
        r is Some ==> -9000000000000 <= (r->0).0 <= 9000000000000 && (r->0).1 < 2000000,
{
    let s = match core::str::from_utf8(b) {
        Ok(s) => s,
        Err(_) => return None,
    };
    match chrono::NaiveDateTime::parse_from_str(s, fmt) {
        Ok(ndt) => {
            let dt = ndt.and_utc();
            Some((dt.timestamp(), dt.timestamp_subsec_micros()))
        },
        Err(_) => None,
    }
}

/// Epoch seconds and sub-second microseconds, as one microsecond count.
pub open spec fn micros_of_pair(p: (i64, u32)) -> int {
    p.0 * 1000000 + p.1
}

/// What a timestamp string is worth, in microseconds since the epoch:
/// the explicit format is tried first when given, then RFC-3339, then
/// the string is read as a bare decimal number under the magnitude
/// heuristic.
pub open spec fn parse_ts_spec(b: Seq<u8>, fmt: Option<Seq<char>>) -> Option<int> {
    let viafmt: Option<(i64, u32)> = match fmt {
        Some(f) => strptime_epoch_of(b, f),
        None => None,
    };
    if viafmt is Some {
        Some(micros_of_pair(viafmt->0))
    } else {
        match rfc3339_epoch_of(b) {
            Some(p) => Some(micros_of_pair(p)),
            None => match parse_decimal_spec(b) {
                Some(d) => Some(unit_scaled_micros(d.0, d.1, d.2)),
                None => None,
            },
        }
    }
}

/// The view of an optional format string.
pub open spec fn fmt_view(fmt_opt: Option<&str>) -> Option<Seq<char>> {
    match fmt_opt {
        Some(f) => Some(f@),
        None => None,
    }
}

/// Parses a timestamp out of the byte string `b`: the explicit format
/// first when given, then RFC-3339, then a bare number under the
/// magnitude heuristic; the result is microseconds since the epoch.
pub fn parse_timestamp_bytes(b: &[u8], fmt_opt: Option<&str>) -> (r: Option<i64>)
    ensures
        match r {
            Option::Some(v) => parse_ts_spec(b@, fmt_view(fmt_opt)) == Some(v as int),
            Option::None => parse_ts_spec(b@, fmt_view(fmt_opt)) is None,
        },
{
    match fmt_opt {
        Option::Some(f) => {
            match strptime_epoch(b, f) {
                Option::Some(p) => {
                    return Some(p.0 * 1000000 + p.1 as i64);
                },
                Option::None => {},
            }
        },
        Option::None => {},
    }
    match rfc3339_epoch(b) {
        Option::Some(p) => Some(p.0 * 1000000 + p.1 as i64),
        Option::None => {
            match parse_decimal(b) {
                Option::Some(d) => Some(scaled_epoch_micros(d.0, d.1, d.2)),
                Option::None => None,
            }
        },
    }
}

/// Parses a timestamp out of the string `s`; see `parse_timestamp_bytes`.
pub fn parse_timestamp_string(s: &str, fmt_opt: Option<&str>) -> (r: Option<i64>)
    ensures
        match r {
            Option::Some(v) => parse_ts_spec(s.spec_bytes(), fmt_view(fmt_opt)) == Some(v as int),
            Option::None => parse_ts_spec(s.spec_bytes(), fmt_view(fmt_opt)) is None,
        },
{
    parse_timestamp_bytes(s.as_bytes(), fmt_opt)
}

/// What one record field is worth as a timestamp: a number goes through
/// the unit inference; a non-empty string is parsed; null, an empty
/// string, and everything else yield nothing.
pub open spec fn field_ts_spec(val: Record, fmt: Option<Seq<char>>) -> Option<int> {
    match val {
        Record::Int(n) => Some(epoch_micros_of_int(n as int)),
        Record::Micros(m) => Some(epoch_micros_of_frac(m as int)),
        Record::Str(sb) => if sb@.len() == 0 {
            None
        } else {
            parse_ts_spec(sb@, fmt)
        },
        _ => None,
    }
}

/// What a record is worth as a timestamp under one path.
pub open spec fn path_ts_spec(v: Record, path: Seq<char>, fmt: Option<Seq<char>>) -> Option<int> {
    match lookup_spec(v, split_dots(path)) {
        Some(val) => field_ts_spec(val, fmt),
        None => None,
    }
}

/// What a record is worth as a timestamp: the first of the paths, in
/// order, that yields a value.
pub open spec fn extract_ts_spec(v: Record, paths: Seq<Seq<char>>, fmt: Option<Seq<char>>) -> Option<
    int,
>
    decreases paths.len(),
{
    if paths.len() == 0 {
        None
    } else {
        let r0 = path_ts_spec(v, paths[0], fmt);
        if r0 is Some {
            r0
        } else {
            extract_ts_spec(v, paths.drop_first(), fmt)
        }
    }
}

/// Extracts a timestamp from `event`, trying each path in order and
/// skipping absent, null and empty values; the result is microseconds
/// since the epoch.
#[verifier::loop_isolation(false)]
pub fn extract_timestamp_from_record(
    event: &Record,
    paths: &Vec<String>,
    fmt_opt: Option<&str>,
) -> (r: Option<i64>)
    ensures
        match r {
            Option::Some(v) => extract_ts_spec(*event, paths.deep_view(), fmt_view(fmt_opt))
                == Some(v as int),
            Option::None => extract_ts_spec(*event, paths.deep_view(), fmt_view(fmt_opt)) is None,
        },
{
    let ghost full = paths.deep_view();
    let mut i: usize = 0;
    proof {
        assert(full.skip(0) =~= full);
    }
    while i < paths.len()
        invariant
            i <= paths@.len(),
            extract_ts_spec(*event, full, fmt_view(fmt_opt)) == extract_ts_spec(
                *event,
                full.skip(i as int),
                fmt_view(fmt_opt),
            ),
        decreases paths.len() - i,
    {
        proof {
            assert(full.skip(i as int)[0] == paths@[i as int]@);
            assert(full.skip(i as int).drop_first() =~= full.skip(i as int + 1));
        }
        match get_nested_value(event, paths[i].as_str()) {
            Option::Some(val) => {
                match val {
                    Record::Int(n) => {
                        return Some(epoch_from_number(*n));
                    },
                    Record::Micros(m) => {
                        return Some(epoch_from_micros_value(*m));
                    },
                    Record::Str(sb) => {
                        if sb.len() > 0 {
                            match parse_timestamp_bytes(sb.as_slice(), fmt_opt) {
                                Option::Some(v) => {
                                    return Some(v);
                                },
                                Option::None => {},
                            }
                        }
                    },
                    _ => {},
                }
            },
            Option::None => {},
        }
        i += 1;
    }
    None
}

/// A byte-for-byte copy of `src`.
pub fn copy_bytes(src: &Vec<u8>) -> (r: Vec<u8>)
    ensures
        r@ == src@,
{
    let mut out: Vec<u8> = Vec::new();
    let mut i: usize = 0;
    while i < src.len()
        invariant
            i <= src@.len(),
            out@ == src@.take(i as int),
        decreases src.len() - i,
    {
        out.push(src[i]);
        i += 1;
        assert(out@ =~= src@.take(i as int));
    }
    proof {
        assert(src@.take(src@.len() as int) =~= src@);
    }
    out
}

/// Extracts a host from `event`: the value under the dotted path, when
/// it is a string.
pub fn extract_host_from_record(event: &Record, host_path: &str) -> (r: Option<Vec<u8>>)
    ensures
        match lookup_spec(*event, split_dots(host_path@)) {
            Some(val) => match val {
                Record::Str(sb) => r is Some && r->0@ == sb@,
                _ => r is None,
            },
            None => r is None,
        },
{
    match get_nested_value(event, host_path) {
        Option::Some(val) => match val {
            Record::Str(sb) => Some(copy_bytes(sb)),
            _ => None,
        },
        Option::None => None,
    }
}

/// What str::to_lowercase makes of a string: a function of the
/// characters alone.
pub uninterp spec fn lower_of(s: Seq<char>) -> Seq<char>;

/// Relies on str::to_lowercase; the result depends on the characters
/// alone, and an empty string stays empty.
#[verifier::external_body]
fn lowercase(s: &str) -> (r: String)
    ensures
        r@ == lower_of(s@),
        s@.len() == 0 ==> r@.len() == 0,
{
    s.to_lowercase()
}

/// The first dot-delimited label of `l`, with the whole string as the
/// fallback when that label is empty or there is no dot.
pub open spec fn first_label(l: Seq<char>) -> Seq<char> {
    match first_index_of(l, '.') {
        Some(i) => if i == 0 {
            l
        } else {
            l.take(i)
        },
        None => l,
    }
}

/// Canonicalizes a host name: lower-case, keeping only the first
/// dot-delimited label; an empty first label falls back to the whole
/// lower-cased string.
pub fn normalize_host(base: &str) -> (r: String)
    ensures
        r@ == first_label(lower_of(base@)),
{
    let lower = lowercase(base);
    match find_first_char(lower.as_str(), '.') {
        Option::Some(i) => {
            if i > 0 {
                lower.as_str().substring_char(0, i).to_owned()
            } else {
                lower
            }
        },
        Option::None => lower,
    }
}

/// What the xxh3 64-bit fingerprint of a byte string is: a function of
/// the bytes alone.
pub uninterp spec fn xxh3_of(b: Seq<u8>) -> u64;

/// Relies on xxhash_rust::xxh3::xxh3_64 for a fast non-cryptographic
/// fingerprint of the path's bytes, for source-identity keying.
#[verifier::external_body]
pub fn hash_path(path: &str) -> (r: u64)
    ensures
        r == xxh3_of(path.spec_bytes()),
{
    xxhash_rust::xxh3::xxh3_64(path.as_bytes())
}

/// Ten years, in seconds, as the plausibility horizon uses them.
pub const TEN_YEARS_SECS: i64 = 315360000;

/// Whether a timestamp (microseconds since the epoch) is plausible
/// against the clock second `now_secs`: not before the epoch, and at
/// most ten years in the future.
pub open spec fn is_valid_hec_time_spec(ts_micros: int, now_secs: int) -> bool {
    0 <= ts_micros && ts_micros <= (now_secs + TEN_YEARS_SECS) * 1000000
}

/// Decides timestamp plausibility against the clock second `now_secs`.
pub fn is_valid_hec_time_at(ts_micros: i64, now_secs: i64) -> (r: bool)
    ensures
        r == is_valid_hec_time_spec(ts_micros as int, now_secs as int),
{
    if ts_micros < 0 {
        return false;
    }
    let bound: i128 = ((now_secs as i128) + (TEN_YEARS_SECS as i128)) * 1000000;
    (ts_micros as i128) <= bound
}

/// Relies on chrono::Utc::now for the current time, in whole seconds
/// since the Unix epoch; the result depends on the machine's clock.
/// The result is never negative: chrono panics on a system clock set
/// before the epoch rather than return a pre-epoch time.
#[verifier::external_body]
pub fn now_epoch_secs() -> (r: i64)
    ensures
        0 <= r,
{
    chrono::Utc::now().timestamp()
}

/// Decides timestamp plausibility against the machine's clock: the
/// final acceptance gate for any extracted timestamp. A negative
/// timestamp is always rejected; one between the epoch and ten years
/// after it is accepted whatever the (never pre-epoch) clock read.
pub fn is_valid_hec_time(ts_micros: i64) -> (r: bool)
    ensures
        ts_micros < 0 ==> !r,
        0 <= ts_micros && ts_micros <= TEN_YEARS_SECS as int * 1000000 ==> r,
        exists|now: int| 0 <= now && r == is_valid_hec_time_spec(ts_micros as int, now),
{
    let now = now_epoch_secs();
    let r = is_valid_hec_time_at(ts_micros, now);
    proof {
        assert(r == is_valid_hec_time_spec(ts_micros as int, now as int));
        if 0 <= ts_micros && ts_micros <= TEN_YEARS_SECS as int * 1000000 {
            assert((now + TEN_YEARS_SECS) * 1000000 == now * 1000000 + TEN_YEARS_SECS as int
                * 1000000);
        }
    }
    r
}

} // verus!
