//! The delivery batcher: accumulates serialized records under a byte
//! budget and hands full batches out for delivery.
//!
//! Queuing a record that would push the buffer over budget first yields
//! the existing buffer as a pending flush; the new record then starts a
//! fresh buffer. Records are never split across batches, and a record
//! exceeding the budget on its own is still accepted as the sole content
//! of a batch.

use vstd::prelude::*;
use crate::record::{
    Record, json_of, fields_of, obj_has_key, retain_non_null, to_json, obj_find, obj_set_default,
    retain_non_null_exec,
};

verus! {

/// The default byte budget of one batch.
pub const DEFAULT_MAX_BATCH_BYTES: usize = 100000;

/// The bytes of the first `i` entries of `s`, concatenated.
pub open spec fn concat_upto(s: Seq<Vec<u8>>, i: int) -> Seq<u8>
    decreases i,
{
    if i <= 0 || i > s.len() {
        Seq::empty()
    } else {
        concat_upto(s, i - 1) + s[i - 1]@
    }
}

/// The bytes of all entries of `s`, concatenated.
pub open spec fn concat_of(s: Seq<Vec<u8>>) -> Seq<u8> {
    concat_upto(s, s.len() as int)
}

/// The total byte length of the first `i` entries of `s`.
pub open spec fn sum_upto(s: Seq<Vec<u8>>, i: int) -> int
    decreases i,
{
    if i <= 0 || i > s.len() {
        0
    } else {
        sum_upto(s, i - 1) + s[i - 1]@.len()
    }
}

/// The total byte length of the entries of `s`.
pub open spec fn sum_lens(s: Seq<Vec<u8>>) -> int {
    sum_upto(s, s.len() as int)
}

/// Appending an entry adds exactly its length to the total.
pub proof fn lemma_sum_push(s: Seq<Vec<u8>>, e: Vec<u8>)
    ensures
        sum_lens(s.push(e)) == sum_lens(s) + e@.len(),
        concat_of(s.push(e)) == concat_of(s) + e@,
    decreases s.len(),
{
    lemma_upto_push(s, e, s.len() as int);
}

/// The prefix sums and concatenations of `s` are unchanged by a push.
pub proof fn lemma_upto_push(s: Seq<Vec<u8>>, e: Vec<u8>, i: int)
    requires
        0 <= i <= s.len(),
    ensures
        sum_upto(s.push(e), i) == sum_upto(s, i),
        concat_upto(s.push(e), i) == concat_upto(s, i),
    decreases i,
{
    if i > 0 {
        lemma_upto_push(s, e, i - 1);
        assert(s.push(e)[i - 1] == s[i - 1]);
    }
}

/// A batch taken out of the buffer, ready to be delivered: the request
/// body and the individual serialized entries it was joined from (kept
/// for per-record failure diagnosis).
pub struct PendingFlush {
    pub body: Vec<u8>,
    pub entries: Vec<Vec<u8>>,
}

impl PendingFlush {
    /// The body is exactly the concatenation of the entries.
    pub open spec fn wf(self) -> bool {
        self.body@ == concat_of(self.entries@)
    }
}

/// The bytes of all entries of `entries`, concatenated in order.
fn build_body(entries: &Vec<Vec<u8>>) -> (r: Vec<u8>)
    ensures
        r@ == concat_of(entries@),
{
    let mut body: Vec<u8> = Vec::new();
    let mut i: usize = 0;
    while i < entries.len()
        invariant
            i <= entries@.len(),
            body@ == concat_upto(entries@, i as int),
        decreases entries.len() - i,
    {
        let mut j: usize = 0;
        while j < entries[i].len()
            invariant
                i < entries@.len(),
                j <= entries@[i as int]@.len(),
                body@ == concat_upto(entries@, i as int) + entries@[i as int]@.take(j as int),
            decreases entries@[i as int]@.len() - j,
        {
            body.push(entries[i][j]);
            j += 1;
            assert(body@ =~= concat_upto(entries@, i as int) + entries@[i as int]@.take(
                j as int,
            ));
        }
        i += 1;
        assert(body@ =~= concat_upto(entries@, i as int));
    }
    body
}

/// The bytes of the key `host`.
pub open spec fn host_key_spec() -> Seq<u8> {
    seq![0x68u8, 0x6fu8, 0x73u8, 0x74u8]
}

/// The bytes of the key `time`.
pub open spec fn time_key_spec() -> Seq<u8> {
    seq![0x74u8, 0x69u8, 0x6du8, 0x65u8]
}

/// The bytes of the key `event`.
pub open spec fn event_key_spec() -> Seq<u8> {
    seq![0x65u8, 0x76u8, 0x65u8, 0x6eu8, 0x74u8]
}

fn host_key() -> (r: Vec<u8>)
    ensures
        r@ == host_key_spec(),
{
    let mut v: Vec<u8> = Vec::new();
    v.push(0x68);
    v.push(0x6f);
    v.push(0x73);
    v.push(0x74);
    proof {
        assert(v@ =~= host_key_spec());
    }
    v
}

fn time_key() -> (r: Vec<u8>)
    ensures
        r@ == time_key_spec(),
{
    let mut v: Vec<u8> = Vec::new();
    v.push(0x74);
    v.push(0x69);
    v.push(0x6d);
    v.push(0x65);
    proof {
        assert(v@ =~= time_key_spec());
    }
    v
}

fn event_key() -> (r: Vec<u8>)
    ensures
        r@ == event_key_spec(),
{
    let mut v: Vec<u8> = Vec::new();
    v.push(0x65);
    v.push(0x76);
    v.push(0x65);
    v.push(0x6e);
    v.push(0x74);
    proof {
        assert(v@ =~= event_key_spec());
    }
    v
}

/// Whether the field view `fo` has an entry under the key `k`.
pub open spec fn fhas_key(fo: Seq<(Seq<u8>, Record)>, k: Seq<u8>) -> bool {
    exists|j: int| 0 <= j < fo.len() && fo[j].0 == k
}

/// `fo` with `(k, v)` appended unless the key is already present.
pub open spec fn with_default_field(fo: Seq<(Seq<u8>, Record)>, k: Seq<u8>, v: Record) -> Seq<
    (Seq<u8>, Record),
> {
    if fhas_key(fo, k) {
        fo
    } else {
        fo.push((k, v))
    }
}

/// The pairs of the field view `s` whose value is not `Null`, in order.
pub open spec fn retain_nn_fields(s: Seq<(Seq<u8>, Record)>) -> Seq<(Seq<u8>, Record)>
    decreases s.len(),
{
    if s.len() == 0 {
        Seq::empty()
    } else if s[0].1 is Null {
        retain_nn_fields(s.drop_first())
    } else {
        seq![s[0]] + retain_nn_fields(s.drop_first())
    }
}

/// Key lookup is the same on a map and on its field view.
pub proof fn lemma_has_key_fields(o: Seq<(Vec<u8>, Record)>, k: Seq<u8>)
    ensures
        obj_has_key(o, k) == fhas_key(fields_of(o), k),
{
    if obj_has_key(o, k) {
        let j = choose|j: int| 0 <= j < o.len() && o[j].0@ == k;
        assert(fields_of(o)[j].0 == k);
    }
    if fhas_key(fields_of(o), k) {
        let j = choose|j: int| 0 <= j < fields_of(o).len() && fields_of(o)[j].0 == k;
        assert(o[j].0@ == k);
    }
}

/// Null stripping commutes with abstracting the keys to byte sequences.
pub proof fn lemma_retain_fields(s: Seq<(Vec<u8>, Record)>)
    ensures
        fields_of(retain_non_null(s)) == retain_nn_fields(fields_of(s)),
    decreases s.len(),
{
    if s.len() > 0 {
        lemma_retain_fields(s.drop_first());
        assert(fields_of(s).drop_first() =~= fields_of(s.drop_first()));
        if s[0].1 is Null {
        } else {
            assert(fields_of(seq![s[0]] + retain_non_null(s.drop_first())) =~= seq![
                (s[0].0@, s[0].1),
            ] + fields_of(retain_non_null(s.drop_first())));
        }
    }
}

/// The body of `popped_rel` at a given witness index `j`.
pub open spec fn popped_at(fo: Seq<(Seq<u8>, Record)>, ro: Seq<(Seq<u8>, Record)>, j: int) -> bool {
    &&& 0 <= j < fo.len()
    &&& fo[j].0 == event_key_spec()
    &&& (forall|l: int| 0 <= l < j ==> fo[l].0 != event_key_spec())
    &&& if fo[j].1 is Obj {
        &&& ro.len() == fo.len()
        &&& (forall|i: int| 0 <= i < fo.len() && i != j ==> ro[i] == fo[i])
        &&& ro[j].0 == fo[j].0
        &&& ro[j].1 is Obj
        &&& fields_of(ro[j].1->Obj_0@) == retain_nn_fields(fields_of(fo[j].1->Obj_0@))
    } else {
        ro == fo
    }
}

/// How null stripping rewrites a record's field view: the value under
/// the first `event` key, when it is a map, loses its `Null`-valued
/// fields; everything else is untouched.
pub open spec fn popped_rel(fo: Seq<(Seq<u8>, Record)>, ro: Seq<(Seq<u8>, Record)>) -> bool {
    if !fhas_key(fo, event_key_spec()) {
        ro == fo
    } else {
        exists|j: int| popped_at(fo, ro, j)
    }
}

/// How record preparation relates the queued record `payload` to the
/// serialized record `r`: a `host` field (the given host string) and a
/// `time` field (the given time) are appended when absent, then, when
/// `pop` is set, the `event` subsection loses its null fields.
pub open spec fn prep_rel(payload: Record, host: Vec<u8>, now: i64, pop: bool, r: Record) -> bool {
    &&& r is Obj
    &&& {
        let fo = fields_of(payload->Obj_0@);
        let o2 = with_default_field(
            with_default_field(fo, host_key_spec(), Record::Str(host)),
            time_key_spec(),
            Record::Micros(now),
        );
        if pop {
            popped_rel(o2, fields_of(r->Obj_0@))
        } else {
            fields_of(r->Obj_0@) == o2
        }
    }
}

/// Prepares a structured-mode record for serialization: fills a default
/// host and time when absent and optionally strips null fields inside
/// the `event` subsection.
#[verifier::rlimit(30)]
pub fn prepare_event(payload: Record, host: Vec<u8>, now: i64, pop: bool) -> (r: Record)
    requires
        payload is Obj,
    ensures
        prep_rel(payload, host, now, pop, r),
{
    let ghost orig = payload;
    match payload {
        Record::Obj(mut o) => {
            let ghost ov0 = o@;
            let hk = host_key();
            obj_set_default(&mut o, hk, Record::Str(host));
            proof {
                lemma_has_key_fields(ov0, host_key_spec());
                if !obj_has_key(ov0, host_key_spec()) {
                    assert(fields_of(o@) =~= fields_of(ov0).push(
                        (host_key_spec(), Record::Str(host)),
                    ));
                }
            }
            let ghost ov1 = o@;
            let ghost o1 = fields_of(ov1);
            let tk = time_key();
            obj_set_default(&mut o, tk, Record::Micros(now));
            proof {
                lemma_has_key_fields(ov1, time_key_spec());
                if !obj_has_key(ov1, time_key_spec()) {
                    assert(fields_of(o@) =~= o1.push((time_key_spec(), Record::Micros(now))));
                }
            }
            let ghost o2 = fields_of(o@);
            if pop {
                let ek = event_key();
                match obj_find(&o, &ek) {
                    Option::Some(i) => {
                        let ghost before = o@;
                        let p = o.remove(i);
                        let (key, val) = p;
                        match val {
                            Record::Obj(m) => {
                                let f = retain_non_null_exec(m);
                                proof {
                                    lemma_retain_fields(m@);
                                }
                                o.insert(i, (key, Record::Obj(f)));
                                proof {
                                    assert(o@ =~= before.update(
                                        i as int,
                                        (key, Record::Obj(f)),
                                    ));
                                    assert(fields_of(o@) =~= fields_of(before).update(
                                        i as int,
                                        (key@, Record::Obj(f)),
                                    ));
                                    assert(popped_at(o2, fields_of(o@), i as int));
                                }
                            },
                            other => {
                                o.insert(i, (key, other));
                                proof {
                                    assert(o@ =~= before);
                                    assert(popped_at(o2, fields_of(o@), i as int));
                                }
                            },
                        }
                    },
                    Option::None => {
                        proof {
                            lemma_has_key_fields(o@, event_key_spec());
                        }
                    },
                }
            }
            Record::Obj(o)
        },
        _ => {
            proof {
                assert(false);
            }
            Record::Null
        },
    }
}

/// `b` guaranteed to end in exactly the newline it already has, or one
/// appended: the line-oriented serialization of a record.
pub open spec fn line_terminated(b: Seq<u8>) -> Seq<u8> {
    if b.len() > 0 && b[b.len() - 1] == 0x0a {
        b
    } else {
        b.push(0x0au8)
    }
}

/// Whether `a` and `b` hold the same characters.
fn string_eq_str(a: &String, b: &str) -> (r: bool)
    ensures
        r == (a@ == b@),
{
    let bs = String::from_str(b);
    a.eq(&bs)
}

/// The UTF-8 bytes of `h`.
fn host_bytes(h: &String) -> (r: Vec<u8>)
    ensures
        r@ == vstd::utf8::encode_utf8(h@),
{
    h.as_str().as_bytes_vec()
}

/// Relies on hostname::get for the local machine name; falls back to
/// `localhost` when the name cannot be read or is not valid text.
#[verifier::external_body]
fn local_hostname() -> (r: String) {
    hostname::get().ok().and_then(|h| h.into_string().ok()).unwrap_or_else(
        || "localhost".to_string(),
    )
}

/// Relies on chrono::Utc::now for the current time, converted to
/// microseconds since the Unix epoch; the result depends on the
/// machine's clock. The result is never negative: chrono panics on a
/// system clock set before the epoch rather than return a pre-epoch
/// time.
#[verifier::external_body]
pub fn now_epoch_micros() -> (r: i64)
    ensures
        0 <= r,
{
    chrono::Utc::now().timestamp_micros()
}

/// The serialization of `v` as one line-mode entry.
fn line_serialize(v: &Record) -> (r: Vec<u8>)
    ensures
        r@ == line_terminated(json_of(*v)),
{
    let mut b = to_json(v);
    if b.len() == 0 || b[b.len() - 1] != 0x0a {
        b.push(0x0a);
    }
    b
}

/// The delivery client: endpoint configuration plus the batch buffer it
/// exclusively owns.
pub struct HttpEventCollector {
    pub token: String,
    pub http_event_server: String,
    pub input_type: String,
    pub host: String,
    pub http_event_port: String,
    pub http_event_server_ssl: bool,
    pub ssl_verify: bool,
    pub index: Option<String>,
    pub sourcetype: Option<String>,
    pub pop_null_fields: bool,
    pub batch_events: Vec<Vec<u8>>,
    pub current_byte_length: usize,
    pub max_byte_length: usize,
}

impl HttpEventCollector {
    /// The batch accounting invariant: the byte accumulator always
    /// equals the sum of the buffered entry lengths.
    pub open spec fn wf(self) -> bool {
        self.current_byte_length == sum_lens(self.batch_events@)
    }

    /// The buffered serialized entries.
    pub open spec fn entries(self) -> Seq<Vec<u8>> {
        self.batch_events@
    }

    /// The byte accumulator.
    pub open spec fn byte_length(self) -> int {
        self.current_byte_length as int
    }

    /// Whether the client serializes structured (JSON) events.
    pub open spec fn is_json_mode(self) -> bool {
        self.input_type@ == "json"@
    }

    /// Whether the client posts to the line-oriented (raw) endpoint.
    pub open spec fn is_raw_mode(self) -> bool {
        self.input_type@ == "raw"@
    }

    /// Whether `a` and `b` agree on everything but the batch buffer.
    pub open spec fn same_config(a: Self, b: Self) -> bool {
        &&& a.token == b.token
        &&& a.http_event_server == b.http_event_server
        &&& a.input_type == b.input_type
        &&& a.host == b.host
        &&& a.http_event_port == b.http_event_port
        &&& a.http_event_server_ssl == b.http_event_server_ssl
        &&& a.ssl_verify == b.ssl_verify
        &&& a.index == b.index
        &&& a.sourcetype == b.sourcetype
        &&& a.pop_null_fields == b.pop_null_fields
        &&& a.max_byte_length == b.max_byte_length
    }

    /// Whether the client serializes structured (JSON) events.
    pub fn json_mode(&self) -> (r: bool)
        ensures
            r == self.is_json_mode(),
    {
        string_eq_str(&self.input_type, "json")
    }

    /// Whether the client posts to the line-oriented (raw) endpoint.
    pub fn raw_mode(&self) -> (r: bool)
        ensures
            r == self.is_raw_mode(),
    {
        string_eq_str(&self.input_type, "raw")
    }

    /// A fresh client for the given endpoint: default port 8088, SSL on,
    /// certificate verification off, no routing hints, an empty buffer
    /// and the default byte budget. The host is the local machine name.
    pub fn new(token: &str, http_event_server: &str, input_type: &str) -> (r: Self)
        ensures
            r.wf(),
            r.token@ == token@,
            r.http_event_server@ == http_event_server@,
            r.input_type@ == input_type@,
            r.http_event_port@ == "8088"@,
            r.http_event_server_ssl,
            !r.ssl_verify,
            r.index is None,
            r.sourcetype is None,
            !r.pop_null_fields,
            r.entries().len() == 0,
            r.byte_length() == 0,
            r.max_byte_length == DEFAULT_MAX_BATCH_BYTES,
    {
        let host = local_hostname();
        HttpEventCollector {
            token: token.to_owned(),
            http_event_server: http_event_server.to_owned(),
            input_type: input_type.to_owned(),
            host,
            http_event_port: String::from_str("8088"),
            http_event_server_ssl: true,
            ssl_verify: false,
            index: None,
            sourcetype: None,
            pop_null_fields: false,
            batch_events: Vec::new(),
            current_byte_length: 0,
            max_byte_length: DEFAULT_MAX_BATCH_BYTES,
        }
    }

    /// How one queued entry `e` changes the buffer: an entry that would
    /// push the buffer over budget first flushes the existing non-empty
    /// buffer and then starts a fresh one holding only `e` - so `e` is
    /// accepted even when it exceeds the budget on its own.
    pub open spec fn queue_effect(
        o: Self,
        n: Self,
        e: Vec<u8>,
        r: Option<PendingFlush>,
    ) -> bool {
        let over = o.byte_length() + e@.len() > o.max_byte_length && o.entries().len() > 0;
        if over {
            &&& r is Some
            &&& r->0.entries@ == o.entries()
            &&& r->0.body@ == concat_of(o.entries())
            &&& n.entries() == seq![e]
            &&& n.byte_length() == e@.len()
        } else {
            &&& r is None
            &&& n.entries() == o.entries().push(e)
            &&& n.byte_length() == o.byte_length() + e@.len()
        }
    }

    /// How the queued record `payload` becomes the serialized entry `e`:
    /// in structured mode the prepared record (host and time defaulted
    /// at time `now`, nulls optionally stripped) is serialized compactly;
    /// in line mode the record passes through with exactly one trailing
    /// newline guaranteed.
    pub open spec fn entry_rel(c: Self, payload: Record, now: i64, p: Record, e: Vec<u8>) -> bool {
        if c.is_json_mode() {
            exists|hv: Vec<u8>|
                {
                    &&& hv@ == vstd::utf8::encode_utf8(c.host@)
                    &&& prep_rel(payload, hv, now, c.pop_null_fields, p)
                    &&& e@ == json_of(p)
                }
        } else {
            p == payload && e@ == line_terminated(json_of(payload))
        }
    }

    /// The batch accounting law: however many records are queued with
    /// no intervening flush, every queue step keeps the byte
    /// accumulator equal to the sum of the serialized lengths of the
    /// buffered records.
    pub proof fn lemma_queue_keeps_accounting(
        o: Self,
        n: Self,
        e: Vec<u8>,
        r: Option<PendingFlush>,
    )
        requires
            o.wf(),
            Self::queue_effect(o, n, e, r),
        ensures
            n.byte_length() == sum_lens(n.entries()),
    {
        let over = o.byte_length() + e@.len() > o.max_byte_length && o.entries().len() > 0;
        if over {
            assert(sum_upto(seq![e], 0) == 0);
            assert(sum_upto(seq![e], 1) == e@.len());
        } else {
            lemma_sum_push(o.entries(), e);
        }
    }

    /// Queues one record, serialized as of time `now`; returns the
    /// previous batch when the new record would have pushed it over
    /// budget.
    pub fn batch_event_at(&mut self, payload: Record, now: i64) -> (r: Option<PendingFlush>)
        requires
            old(self).wf(),
            old(self).is_json_mode() ==> payload is Obj,
        ensures
            final(self).wf(),
            Self::same_config(*old(self), *final(self)),
            exists|p: Record, e: Vec<u8>|
                #![auto]
                Self::entry_rel(*old(self), payload, now, p, e) && Self::queue_effect(
                    *old(self),
                    *final(self),
                    e,
                    r,
                ),
    {
        let ghost c0 = *self;
        let e: Vec<u8>;
        let ghost pv: Record;
        if self.json_mode() {
            let hb = host_bytes(&self.host);
            let ghost hbg = hb;
            let p = prepare_event(payload, hb, now, self.pop_null_fields);
            e = to_json(&p);
            proof {
                pv = p;
                assert(hbg@ == vstd::utf8::encode_utf8(c0.host@) && prep_rel(
                    payload,
                    hbg,
                    now,
                    c0.pop_null_fields,
                    pv,
                ) && e@ == json_of(pv));
            }
        } else {
            e = line_serialize(&payload);
            proof {
                pv = payload;
            }
        }
        proof {
            assert(Self::entry_rel(c0, payload, now, pv, e));
        }
        let len = e.len();
        let over = (self.current_byte_length as u128) + (len as u128) > (self.max_byte_length
            as u128) && self.batch_events.len() > 0;
        if over {
            let mut entries: Vec<Vec<u8>> = Vec::new();
            core::mem::swap(&mut self.batch_events, &mut entries);
            let body = build_body(&entries);
            self.batch_events.push(e);
            self.current_byte_length = len;
            proof {
                lemma_sum_push(Seq::<Vec<u8>>::empty(), e);
                assert(self.batch_events@ =~= seq![e]);
                assert(sum_lens(seq![e]) == e@.len() as int) by {
                    assert(seq![e].drop_last() =~= Seq::<Vec<u8>>::empty());
                }
            }
            Some(PendingFlush { body, entries })
        } else {
            self.batch_events.push(e);
            self.current_byte_length = self.current_byte_length + len;
            proof {
                lemma_sum_push(c0.batch_events@, e);
            }
            None
        }
    }

    /// Queues one record, serialized as of the current clock time.
    pub fn batch_event(&mut self, payload: Record) -> (r: Option<PendingFlush>)
        requires
            old(self).wf(),
            old(self).is_json_mode() ==> payload is Obj,
        ensures
            final(self).wf(),
            Self::same_config(*old(self), *final(self)),
            exists|now: i64, p: Record, e: Vec<u8>|
                #![auto]
                0 <= now && Self::entry_rel(*old(self), payload, now, p, e) && Self::queue_effect(
                    *old(self),
                    *final(self),
                    e,
                    r,
                ),
    {
        let now = now_epoch_micros();
        self.batch_event_at(payload, now)
    }

    /// Takes the buffered batch out for delivery, leaving the buffer
    /// empty and the byte accumulator zero whatever happens next; an
    /// empty buffer yields nothing.
    pub fn flush_batch(&mut self) -> (r: Option<PendingFlush>)
        requires
            old(self).wf(),
        ensures
            final(self).wf(),
            Self::same_config(*old(self), *final(self)),
            final(self).entries().len() == 0,
            final(self).byte_length() == 0,
            old(self).entries().len() == 0 ==> r is None,
            old(self).entries().len() > 0 ==> r is Some && r->0.entries@ == old(self).entries()
                && r->0.body@ == concat_of(old(self).entries()),
    {
        if self.batch_events.len() == 0 {
            return None;
        }
        let mut entries: Vec<Vec<u8>> = Vec::new();
        core::mem::swap(&mut self.batch_events, &mut entries);
        let body = build_body(&entries);
        self.current_byte_length = 0;
        Some(PendingFlush { body, entries })
    }
}

/// Whether the character `c` occurs in `s`.
pub open spec fn seq_contains_char(s: Seq<char>, c: char) -> bool {
    exists|i: int| 0 <= i < s.len() && s[i] == c
}

/// Relies on uuid::Uuid::new_v4 for a fresh random channel identifier,
/// rendered in the 36-character hyphenated form its documentation
/// gives. It panics only if the operating system's random source
/// fails.
#[verifier::external_body]
pub fn fresh_channel_id() -> (r: String)
    ensures
        r@.len() == 36,
{
    uuid::Uuid::new_v4().to_string()
}

/// The last character of the URL built so far.
fn last_char(s: &String) -> (r: char)
    requires
        s@.len() > 0,
    ensures
        r == s@[s@.len() - 1],
{
    let st = s.as_str();
    let n = st.unicode_len();
    st.get_char(n - 1)
}

/// The path-and-query suffix of the collector URL: the raw endpoint
/// carries the channel; a configured sourcetype and/or index are
/// appended as query parameters exactly as the client writes them.
pub open spec fn input_url_spec(c: HttpEventCollector, channel: Seq<char>) -> Seq<char> {
    let u0: Seq<char> = if c.is_raw_mode() {
        "/raw?channel="@ + channel
    } else {
        "/event"@
    };
    let u1: Seq<char> = if (c.sourcetype is Some || c.index is Some) && !seq_contains_char(
        u0,
        '?',
    ) {
        u0 + "?"@
    } else {
        u0
    };
    let u2: Seq<char> = match c.sourcetype {
        Option::Some(st) => if u1.len() > 0 && u1[u1.len() - 1] == '?' {
            u1 + "sourcetype="@ + st@
        } else {
            u1 + "&"@ + "sourcetype="@ + st@
        },
        Option::None => u1,
    };
    match c.index {
        Option::Some(idx) => if u2.len() > 0 && (u2[u2.len() - 1] == '?' || u2[u2.len() - 1]
            == '&') {
            u2 + "index="@ + idx@
        } else {
            u2 + "&"@ + "index="@ + idx@
        },
        Option::None => u2,
    }
}

/// The full collector URL for one request over the channel `channel`.
pub open spec fn uri_spec(c: HttpEventCollector, channel: Seq<char>) -> Seq<char> {
    let protocol: Seq<char> = if c.http_event_server_ssl {
        "https"@
    } else {
        "http"@
    };
    protocol + "://"@ + c.http_event_server@ + ":"@ + c.http_event_port@
        + "/services/collector"@ + input_url_spec(c, channel)
}

impl HttpEventCollector {
    /// The collector URL for a request over the given channel.
    pub fn server_uri_with_channel(&self, channel: &str) -> (r: String)
        requires
            channel@.len() > 0,
        ensures
            r@ == uri_spec(*self, channel@),
    {
        let raw = self.raw_mode();
        let mut input_url: String;
        if raw {
            input_url = String::from_str("/raw?channel=");
            input_url.append(channel);
        } else {
            input_url = String::from_str("/event");
        }
        let ghost u0 = input_url@;
        if self.sourcetype.is_some() || self.index.is_some() {
            proof {
                reveal_strlit("/raw?channel=");
                reveal_strlit("/event");
                if raw {
                    assert(u0[4] == '?');
                    assert(seq_contains_char(u0, '?'));
                } else {
                    assert(forall|i: int| 0 <= i < u0.len() ==> u0[i] != '?');
                }
            }
            if !raw {
                input_url.append("?");
            }
        }
        let ghost u1 = input_url@;
        proof {
            assert(u1 == if (self.sourcetype is Some || self.index is Some)
                && !seq_contains_char(u0, '?') {
                u0 + "?"@
            } else {
                u0
            });
        }
        match &self.sourcetype {
            Option::Some(st) => {
                proof {
                    reveal_strlit("/raw?channel=");
                    reveal_strlit("/event");
                    reveal_strlit("?");
                }
                if last_char(&input_url) != '?' {
                    input_url.append("&");
                }
                input_url.append("sourcetype=");
                input_url.append(st.as_str());
                proof {
                    assert(input_url@ =~= if u1.len() > 0 && u1[u1.len() - 1] == '?' {
                        u1 + "sourcetype="@ + st@
                    } else {
                        u1 + "&"@ + "sourcetype="@ + st@
                    });
                }
            },
            Option::None => {},
        }
        let ghost u2 = input_url@;
        match &self.index {
            Option::Some(idx) => {
                proof {
                    reveal_strlit("/raw?channel=");
                    reveal_strlit("/event");
                    reveal_strlit("?");
                }
                let lc = last_char(&input_url);
                if lc != '?' && lc != '&' {
                    input_url.append("&");
                }
                input_url.append("index=");
                input_url.append(idx.as_str());
                proof {
                    assert(input_url@ =~= if u2.len() > 0 && (u2[u2.len() - 1] == '?'
                        || u2[u2.len() - 1] == '&') {
                        u2 + "index="@ + idx@
                    } else {
                        u2 + "&"@ + "index="@ + idx@
                    });
                }
            },
            Option::None => {},
        }
        let mut url: String;
        if self.http_event_server_ssl {
            url = String::from_str("https");
        } else {
            url = String::from_str("http");
        }
        url.append("://");
        url.append(self.http_event_server.as_str());
        url.append(":");
        url.append(self.http_event_port.as_str());
        url.append("/services/collector");
        url.append(input_url.as_str());
        proof {
            assert(url@ =~= uri_spec(*self, channel@));
        }
        url
    }

    /// The collector URL for one request, over a fresh random channel.
    pub fn server_uri(&self) -> (r: String)
        ensures
            exists|ch: Seq<char>| ch.len() == 36 && r@ == uri_spec(*self, ch),
    {
        let channel = fresh_channel_id();
        let r = self.server_uri_with_channel(channel.as_str());
        proof {
            assert(channel@.len() == 36 && r@ == uri_spec(*self, channel@));
        }
        r
    }

    /// The Authorization header value carrying the token.
    pub fn auth_header_value(&self) -> (r: String)
        ensures
            r@ == "Splunk "@ + self.token@,
    {
        let mut s = String::from_str("Splunk ");
        s.append(self.token.as_str());
        s
    }
}

} // verus!
