//! The transport value model: a tagged-variant record tree
//! (null / bool / number / string / sequence / map) together with its
//! compact JSON serialization.
//!
//! Strings are carried as their UTF-8 bytes; non-integer numbers carry
//! microsecond precision (`Micros(m)` denotes the number `m / 1e6`),
//! which is what the pipeline's fractional-second timestamps need.

use vstd::prelude::*;

verus! {

/// One record of the pipeline: a tree of scalars, sequences and maps.
pub enum Record {
    Null,
    Bool(bool),
    Int(i64),
    /// A fractional-seconds number with microsecond precision:
    /// `Micros(m)` denotes the number `m / 1_000_000`.
    Micros(i64),
    /// A string, as its UTF-8 bytes.
    Str(Vec<u8>),
    Arr(Vec<Record>),
    /// A map, as an ordered list of key/value pairs.
    Obj(Vec<(Vec<u8>, Record)>),
}

/// The decimal digits of `n`, most significant first.
pub open spec fn dec_digits(n: nat) -> Seq<u8>
    decreases n,
{
    if n < 10 {
        seq![(0x30 + n) as u8]
    } else {
        dec_digits(n / 10) + seq![(0x30 + n % 10) as u8]
    }
}

/// The decimal rendering of the integer `i`, with a leading `-` when negative.
pub open spec fn dec_int(i: int) -> Seq<u8> {
    if i < 0 {
        seq![0x2du8] + dec_digits((-i) as nat)
    } else {
        dec_digits(i as nat)
    }
}

/// The digits of `n` zero-padded on the left to `width` digits.
pub open spec fn dec_padded(n: nat, width: nat) -> Seq<u8>
    decreases width,
{
    if width == 0 {
        Seq::empty()
    } else {
        dec_padded(n / 10, (width - 1) as nat) + seq![(0x30 + n % 10) as u8]
    }
}

/// The rendering of the fractional-seconds number `m / 1e6`:
/// sign, integer part, `.`, then exactly six fraction digits.
pub open spec fn dec_micros(m: int) -> Seq<u8> {
    let a = if m < 0 { -m } else { m };
    let sign: Seq<u8> = if m < 0 { seq![0x2du8] } else { Seq::empty() };
    sign + dec_digits((a / 1000000) as nat) + seq![0x2eu8] + dec_padded((a % 1000000) as nat, 6)
}

/// The upper-case hex digit of `n < 16`.
pub open spec fn hex_digit(n: nat) -> u8 {
    if n < 10 {
        (0x30 + n) as u8
    } else {
        (0x41 + n - 10) as u8
    }
}

/// The JSON escape of one string byte. Quote, backslash and the five
/// short-escape control bytes take two-byte escapes; any other control
/// byte takes a `\u00XX` escape; everything else passes through.
pub open spec fn esc_byte(b: u8) -> Seq<u8> {
    if b == 0x22u8 {
        seq![0x5cu8, 0x22u8]
    } else if b == 0x5cu8 {
        seq![0x5cu8, 0x5cu8]
    } else if b == 0x08 {
        seq![0x5cu8, 0x62u8]
    } else if b == 0x0c {
        seq![0x5cu8, 0x66u8]
    } else if b == 0x0a {
        seq![0x5cu8, 0x6eu8]
    } else if b == 0x0d {
        seq![0x5cu8, 0x72u8]
    } else if b == 0x09 {
        seq![0x5cu8, 0x74u8]
    } else if b < 0x20 {
        seq![0x5cu8, 0x75u8, 0x30u8, 0x30u8, hex_digit((b / 16) as nat), hex_digit((b % 16) as nat)]
    } else {
        seq![b]
    }
}

/// The JSON escape of the first `i` bytes of `s`.
pub open spec fn esc_prefix(s: Seq<u8>, i: int) -> Seq<u8>
    decreases i,
{
    if i <= 0 {
        Seq::empty()
    } else {
        esc_prefix(s, i - 1) + esc_byte(s[i - 1])
    }
}

/// A JSON string literal: the escaped bytes between double quotes.
pub open spec fn json_string(s: Seq<u8>) -> Seq<u8> {
    seq![0x22u8] + esc_prefix(s, s.len() as int) + seq![0x22u8]
}

/// The compact JSON rendering of `v`.
pub open spec fn json_of(v: Record) -> Seq<u8>
    decreases v, 0int,
{
    match v {
        Record::Null => seq![0x6eu8, 0x75u8, 0x6cu8, 0x6cu8],
        Record::Bool(b) => if b {
            seq![0x74u8, 0x72u8, 0x75u8, 0x65u8]
        } else {
            seq![0x66u8, 0x61u8, 0x6cu8, 0x73u8, 0x65u8]
        },
        Record::Int(i) => dec_int(i as int),
        Record::Micros(m) => dec_micros(m as int),
        Record::Str(s) => json_string(s@),
        Record::Arr(a) => seq![0x5bu8] + json_items(a@, a@.len() as int) + seq![0x5du8],
        Record::Obj(o) => seq![0x7bu8] + json_fields(o@, o@.len() as int) + seq![0x7du8],
    }
}

/// The comma-separated renderings of the first `i` elements of `s`.
pub open spec fn json_items(s: Seq<Record>, i: int) -> Seq<u8>
    decreases s, i,
{
    if i <= 0 || i > s.len() {
        Seq::empty()
    } else {
        let sep: Seq<u8> = if i == 1 { Seq::empty() } else { seq![0x2cu8] };
        json_items(s, i - 1) + sep + json_of(s[i - 1])
    }
}

/// The comma-separated `"key":value` renderings of the first `i` pairs of `s`.
pub open spec fn json_fields(s: Seq<(Vec<u8>, Record)>, i: int) -> Seq<u8>
    decreases s, i,
{
    if i <= 0 || i > s.len() {
        Seq::empty()
    } else {
        let sep: Seq<u8> = if i == 1 { Seq::empty() } else { seq![0x2cu8] };
        json_fields(s, i - 1) + sep + json_string(s[i - 1].0@) + seq![0x3au8] + json_of(s[i - 1].1)
    }
}

/// The key/value pairs of a map with the keys abstracted to byte
/// sequences, which is all the serialization depends on.
pub open spec fn fields_of(o: Seq<(Vec<u8>, Record)>) -> Seq<(Seq<u8>, Record)> {
    o.map_values(|p: (Vec<u8>, Record)| (p.0@, p.1))
}

/// Whether the map `o` has an entry under the key `k`.
pub open spec fn obj_has_key(o: Seq<(Vec<u8>, Record)>, k: Seq<u8>) -> bool {
    exists|j: int| 0 <= j < o.len() && o[j].0@ == k
}

/// The pairs of `s` whose value is not `Null`, in order.
pub open spec fn retain_non_null(s: Seq<(Vec<u8>, Record)>) -> Seq<(Vec<u8>, Record)>
    decreases s.len(),
{
    if s.len() == 0 {
        Seq::empty()
    } else if s[0].1 is Null {
        retain_non_null(s.drop_first())
    } else {
        seq![s[0]] + retain_non_null(s.drop_first())
    }
}

/// Two maps with equal field views serialize identically.
pub proof fn lemma_json_fields_congruent(
    a: Seq<(Vec<u8>, Record)>,
    b: Seq<(Vec<u8>, Record)>,
    i: int,
)
    requires
        fields_of(a) == fields_of(b),
        a.len() == b.len(),
    ensures
        json_fields(a, i) == json_fields(b, i),
    decreases i,
{
    if 0 < i <= a.len() {
        lemma_json_fields_congruent(a, b, i - 1);
        assert(fields_of(a)[i - 1] == fields_of(b)[i - 1]);
    }
}

/// Whether the bytes of `a` and `b` are equal.
pub fn bytes_eq(a: &Vec<u8>, b: &Vec<u8>) -> (r: bool)
    ensures
        r == (a@ == b@),
{
    if a.len() != b.len() {
        return false;
    }
    let mut i: usize = 0;
    while i < a.len()
        invariant
            i <= a.len(),
            a@.len() == b@.len(),
            forall|j: int| 0 <= j < i ==> a@[j] == b@[j],
        decreases a.len() - i,
    {
        if a[i] != b[i] {
            return false;
        }
        i += 1;
    }
    proof {
        assert(a@ =~= b@);
    }
    true
}

/// The index of the first entry of `o` under the key `k`, if any.
pub fn obj_find(o: &Vec<(Vec<u8>, Record)>, k: &Vec<u8>) -> (r: Option<usize>)
    ensures
        match r {
            Option::Some(i) => i < o@.len() && o@[i as int].0@ == k@ && (forall|j: int|
                0 <= j < i ==> o@[j].0@ != k@),
            Option::None => forall|j: int| 0 <= j < o@.len() ==> o@[j].0@ != k@,
        },
{
    let mut i: usize = 0;
    while i < o.len()
        invariant
            i <= o@.len(),
            forall|j: int| 0 <= j < i ==> o@[j].0@ != k@,
        decreases o.len() - i,
    {
        if bytes_eq(&o[i].0, k) {
            return Some(i);
        }
        i += 1;
    }
    None
}

/// Appends `(k, v)` to the map unless the key is already present.
pub fn obj_set_default(o: &mut Vec<(Vec<u8>, Record)>, k: Vec<u8>, v: Record)
    ensures
        obj_has_key(old(o)@, k@) ==> final(o)@ == old(o)@,
        !obj_has_key(old(o)@, k@) ==> final(o)@ == old(o)@.push((k, v)),
{
    match obj_find(o, &k) {
        Option::Some(_) => {},
        Option::None => {
            o.push((k, v));
        },
    }
}

/// Removes every `Null`-valued pair of `s`, keeping the order.
pub fn retain_non_null_exec(s: Vec<(Vec<u8>, Record)>) -> (r: Vec<(Vec<u8>, Record)>)
    ensures
        r@ == retain_non_null(s@),
{
    let ghost orig = s@;
    let mut s = s;
    let mut out: Vec<(Vec<u8>, Record)> = Vec::new();
    while s.len() > 0
        invariant
            retain_non_null(orig) == out@ + retain_non_null(s@),
        decreases s.len(),
    {
        let ghost before = s@;
        let p = s.remove(0);
        proof {
            assert(s@ =~= before.drop_first());
            assert(retain_non_null(before) == if p.1 is Null {
                retain_non_null(s@)
            } else {
                seq![p] + retain_non_null(s@)
            });
        }
        match &p.1 {
            Record::Null => {},
            _ => {
                out.push(p);
            },
        }
        assert(retain_non_null(orig) =~= out@ + retain_non_null(s@));
    }
    assert(out@ =~= retain_non_null(orig));
    out
}

/// Appends the decimal digits of `n` to `out`.
fn write_dec_u64(n: u64, out: &mut Vec<u8>)
    ensures
        final(out)@ == old(out)@ + dec_digits(n as nat),
    decreases n,
{
    if n < 10 {
        out.push(0x30 + (n as u8));
    } else {
        write_dec_u64(n / 10, out);
        out.push(0x30 + ((n % 10) as u8));
        assert(out@ =~= old(out)@ + dec_digits(n as nat));
    }
}

/// Appends the digits of `n` zero-padded to `width` digits.
fn write_dec_padded(n: u64, width: u64, out: &mut Vec<u8>)
    ensures
        final(out)@ == old(out)@ + dec_padded(n as nat, width as nat),
    decreases width,
{
    if width > 0 {
        write_dec_padded(n / 10, width - 1, out);
        out.push(0x30 + ((n % 10) as u8));
        assert(out@ =~= old(out)@ + dec_padded(n as nat, width as nat));
    }
}

/// The magnitude of `i` as a `u64` (defined for `i64::MIN` as well).
fn abs_u64(i: i64) -> (r: u64)
    ensures
        r as int == if i < 0 { -(i as int) } else { i as int },
{
    if i < 0 {
        (-(i as i128)) as u64
    } else {
        i as u64
    }
}

/// Appends the decimal rendering of `i`.
fn write_dec_i64(i: i64, out: &mut Vec<u8>)
    ensures
        final(out)@ == old(out)@ + dec_int(i as int),
{
    if i < 0 {
        out.push(0x2d);
    }
    let a = abs_u64(i);
    write_dec_u64(a, out);
    assert(out@ =~= old(out)@ + dec_int(i as int));
}

/// Appends the fractional-seconds rendering of `m / 1e6`.
fn write_micros(m: i64, out: &mut Vec<u8>)
    ensures
        final(out)@ == old(out)@ + dec_micros(m as int),
{
    if m < 0 {
        out.push(0x2d);
    }
    let a = abs_u64(m);
    write_dec_u64(a / 1000000, out);
    out.push(0x2e);
    write_dec_padded(a % 1000000, 6, out);
    assert(out@ =~= old(out)@ + dec_micros(m as int));
}

/// Appends the JSON string literal for the bytes `s`.
fn write_json_string(s: &Vec<u8>, out: &mut Vec<u8>)
    ensures
        final(out)@ == old(out)@ + json_string(s@),
{
    out.push(0x22);
    let mut i: usize = 0;
    while i < s.len()
        invariant
            i <= s.len(),
            out@ == old(out)@ + seq![0x22u8] + esc_prefix(s@, i as int),
        decreases s.len() - i,
    {
        let b = s[i];
        if b == 0x22 {
            out.push(0x5c);
            out.push(0x22);
        } else if b == 0x5c {
            out.push(0x5c);
            out.push(0x5c);
        } else if b == 0x08 {
            out.push(0x5c);
            out.push(0x62);
        } else if b == 0x0c {
            out.push(0x5c);
            out.push(0x66);
        } else if b == 0x0a {
            out.push(0x5c);
            out.push(0x6e);
        } else if b == 0x0d {
            out.push(0x5c);
            out.push(0x72);
        } else if b == 0x09 {
            out.push(0x5c);
            out.push(0x74);
        } else if b < 0x20 {
            out.push(0x5c);
            out.push(0x75);
            out.push(0x30);
            out.push(0x30);
            let hi = b / 16;
            let lo = b % 16;
            out.push(if hi < 10 { 0x30 + hi } else { 0x41 + hi - 10 });
            out.push(if lo < 10 { 0x30 + lo } else { 0x41 + lo - 10 });
        } else {
            out.push(b);
        }
        i += 1;
        assert(out@ =~= old(out)@ + seq![0x22u8] + esc_prefix(s@, i as int));
    }
    out.push(0x22);
    assert(out@ =~= old(out)@ + json_string(s@));
}

/// Appends the compact JSON rendering of `v` to `out`.
#[verifier::loop_isolation(false)]
#[verifier::rlimit(60)]
pub fn write_json(v: &Record, out: &mut Vec<u8>)
    ensures
        final(out)@ == old(out)@ + json_of(*v),
    decreases *v,
{
    match v {
        Record::Null => {
            out.push(0x6e);
            out.push(0x75);
            out.push(0x6c);
            out.push(0x6c);
            assert(out@ =~= old(out)@ + json_of(*v));
        },
        Record::Bool(b) => {
            if *b {
                out.push(0x74);
                out.push(0x72);
                out.push(0x75);
                out.push(0x65);
            } else {
                out.push(0x66);
                out.push(0x61);
                out.push(0x6c);
                out.push(0x73);
                out.push(0x65);
            }
            assert(out@ =~= old(out)@ + json_of(*v));
        },
        Record::Int(i) => {
            write_dec_i64(*i, out);
        },
        Record::Micros(m) => {
            write_micros(*m, out);
        },
        Record::Str(s) => {
            write_json_string(s, out);
        },
        Record::Arr(a) => {
            out.push(0x5b);
            let mut i: usize = 0;
            while i < a.len()
                invariant
                    i <= a.len(),
                    out@ == old(out)@ + seq![0x5bu8] + json_items(a@, i as int),
                decreases a.len() - i,
            {
                if i > 0 {
                    out.push(0x2c);
                }
                proof {
                    assert(decreases_to!(*v => v->Arr_0));
                    assert(decreases_to!(v->Arr_0 => v->Arr_0@));
                    assert(decreases_to!(v->Arr_0@ => v->Arr_0@[i as int]));
                    assert(a@[i as int] == v->Arr_0@[i as int]);
                }
                write_json(&a[i], out);
                i += 1;
                assert(out@ =~= old(out)@ + seq![0x5bu8] + json_items(a@, i as int));
            }
            out.push(0x5d);
            assert(out@ =~= old(out)@ + json_of(*v));
        },
        Record::Obj(o) => {
            out.push(0x7b);
            let mut i: usize = 0;
            while i < o.len()
                invariant
                    i <= o.len(),
                    out@ == old(out)@ + seq![0x7bu8] + json_fields(o@, i as int),
                decreases o.len() - i,
            {
                if i > 0 {
                    out.push(0x2c);
                }
                write_json_string(&o[i].0, out);
                out.push(0x3a);
                proof {
                    assert(decreases_to!(*v => v->Obj_0));
                    assert(decreases_to!(v->Obj_0 => v->Obj_0@));
                    assert(decreases_to!(v->Obj_0@ => v->Obj_0@[i as int]));
                    assert(decreases_to!(v->Obj_0@[i as int] => v->Obj_0@[i as int].1));
                    assert(o@[i as int].1 == v->Obj_0@[i as int].1);
                }
                write_json(&o[i].1, out);
                i += 1;
                assert(out@ =~= old(out)@ + seq![0x7bu8] + json_fields(o@, i as int));
            }
            out.push(0x7d);
            assert(out@ =~= old(out)@ + json_of(*v));
        },
    }
}

/// The compact JSON rendering of `v`, as bytes.
pub fn to_json(v: &Record) -> (r: Vec<u8>)
    ensures
        r@ == json_of(*v),
{
    let mut out: Vec<u8> = Vec::new();
    write_json(v, &mut out);
    out
}

} // verus!
