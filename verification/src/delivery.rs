//! The delivery protocol around one flush: a bounded retry loop with
//! linear backoff on server-busy responses, and best-effort diagnosis of
//! per-record rejections from the response body.
//!
//! The session only decides; performing the HTTP request, the sleep and
//! the logging is the caller's business. The caller sends the batch,
//! reports each response (or a transport failure) and follows the step
//! the session returns.

use vstd::prelude::*;
use crate::collector::PendingFlush;

verus! {

/// The retry ceiling: how many requests one flush may send in all.
pub const MAX_ATTEMPTS: u32 = 5;

/// The unit of the linear backoff between busy retries.
pub const BACKOFF_UNIT_MS: u64 = 500;

/// The HTTP status the endpoint answers when it is overloaded.
pub const BUSY_STATUS: u16 = 503;

/// The error code with which the endpoint reports a malformed event.
pub const INVALID_EVENT_CODE: i64 = 15;

/// The backoff before the retry that follows attempt number `attempt`
/// (counted from zero): linear in the attempt number.
pub open spec fn backoff_ms_spec(attempt: u32) -> int {
    BACKOFF_UNIT_MS * (attempt + 1)
}

/// The backoff grows strictly with the attempt number.
pub proof fn lemma_backoff_increasing(a: u32, b: u32)
    requires
        a < b,
    ensures
        backoff_ms_spec(a) < backoff_ms_spec(b),
{
}

/// What one response means for the attempt loop.
pub enum ResponseAction {
    /// A 2xx status: the flush succeeded.
    Success,
    /// A busy status with attempts left: back off this long, then retry.
    RetryAfterMs(u64),
    /// Any other status, or a final busy answer: abandon the batch.
    GiveUp,
}

/// The three-way outcome of the response with status `status` to attempt
/// number `attempt`.
pub open spec fn classify_spec(status: u16, attempt: u32) -> ResponseAction {
    if 200 <= status < 300 {
        ResponseAction::Success
    } else if status == BUSY_STATUS && attempt + 1 < MAX_ATTEMPTS {
        ResponseAction::RetryAfterMs((backoff_ms_spec(attempt)) as u64)
    } else {
        ResponseAction::GiveUp
    }
}

/// Classifies the response with status `status` to attempt `attempt`.
pub fn classify_response(status: u16, attempt: u32) -> (r: ResponseAction)
    requires
        attempt < MAX_ATTEMPTS,
    ensures
        r == classify_spec(status, attempt),
{
    if 200 <= status && status < 300 {
        ResponseAction::Success
    } else if status == BUSY_STATUS && attempt + 1 < MAX_ATTEMPTS {
        ResponseAction::RetryAfterMs(BACKOFF_UNIT_MS * ((attempt + 1) as u64))
    } else {
        ResponseAction::GiveUp
    }
}

/// What the rejection body identified.
pub enum Diagnosis {
    /// No known error code and event index could be read from the body.
    NoEventInfo,
    /// The body named a malformed event at this index of the batch.
    BadEvent(usize),
    /// The body named an event index outside the submitted batch.
    IndexOutOfRange(u64),
}

/// The diagnosis drawn from a parsed rejection body: a malformed-event
/// code together with an in-range zero-based index identifies that
/// record; an out-of-range index is only reported, never fatal.
pub open spec fn diagnose_spec(code: Option<i64>, invalid: Option<u64>, batch_len: int) -> Diagnosis {
    if code is Some && code->0 == INVALID_EVENT_CODE && invalid is Some {
        if invalid->0 < batch_len {
            Diagnosis::BadEvent(invalid->0 as usize)
        } else {
            Diagnosis::IndexOutOfRange(invalid->0)
        }
    } else {
        Diagnosis::NoEventInfo
    }
}

/// Draws the diagnosis from the error code and event index of a
/// rejection body, against a batch of `batch_len` records.
pub fn diagnose_fields(code: Option<i64>, invalid: Option<u64>, batch_len: usize) -> (r: Diagnosis)
    ensures
        r == diagnose_spec(code, invalid, batch_len as int),
{
    match (code, invalid) {
        (Option::Some(c), Option::Some(iv)) => {
            if c == INVALID_EVENT_CODE {
                if iv < batch_len as u64 {
                    Diagnosis::BadEvent(iv as usize)
                } else {
                    Diagnosis::IndexOutOfRange(iv)
                }
            } else {
                Diagnosis::NoEventInfo
            }
        },
        _ => Diagnosis::NoEventInfo,
    }
}

/// The error code a rejection body carries under its `code` field,
/// when the body parses as JSON holding one as an integer: a function
/// of the body text alone.
pub uninterp spec fn rejection_code_of(s: Seq<char>) -> Option<i64>;

/// The zero-based event index a rejection body carries under its
/// `invalid-event-number` field, when the body parses as JSON holding
/// one as a non-negative integer: a function of the body text alone.
pub uninterp spec fn rejection_index_of(s: Seq<char>) -> Option<u64>;

/// Relies on serde_json::from_str, serde_json::Value::get and the
/// as_i64 / as_u64 readers to pull the `code` and
/// `invalid-event-number` fields out of a rejection body. The two
/// names stand for that composite read, which is a function of the
/// body text alone; a body that is not JSON yields neither field, and
/// none of the calls panics.
#[verifier::external_body]
fn rejection_fields(body: &str) -> (r: (Option<i64>, Option<u64>))
    ensures
        r.0 == rejection_code_of(body@),
        r.1 == rejection_index_of(body@),
{
    match serde_json::from_str::<serde_json::Value>(body) {
        Ok(v) => (
            v.get("code").and_then(|c| c.as_i64()),
            v.get("invalid-event-number").and_then(|n| n.as_u64()),
        ),
        Err(_) => (None, None),
    }
}

/// How one flush ended.
pub enum FlushOutcome {
    /// A 2xx answer: the batch was accepted.
    Delivered,
    /// A terminal rejection: the batch is abandoned, with this diagnosis.
    Abandoned(Diagnosis),
    /// The transport failed (DNS, TLS, timeout, connection).
    TransportFailed,
}

/// What the caller does next.
pub enum SessionStep {
    /// The flush is over, with this outcome.
    Done(FlushOutcome),
    /// Sleep this many milliseconds, then send the batch again.
    Backoff(u64),
}

/// The attempt loop of one flush: holds the batch under delivery and
/// the attempt counter.
pub struct FlushSession {
    pub batch: PendingFlush,
    pub attempt: u32,
    pub done: bool,
}

impl FlushSession {
    /// An undone session still has attempts left.
    pub open spec fn wf(self) -> bool {
        !self.done ==> self.attempt < MAX_ATTEMPTS
    }

    /// A fresh session for the batch, before its first request.
    pub fn new(batch: PendingFlush) -> (r: Self)
        ensures
            r.wf(),
            r.batch == batch,
            r.attempt == 0,
            !r.done,
    {
        FlushSession { batch, attempt: 0, done: false }
    }

    /// Consumes the response to the current attempt and decides the next
    /// step: success ends the flush; a busy answer with attempts left
    /// asks for a linear backoff and a retry; anything else abandons the
    /// batch after diagnosing `resp_body`.
    pub fn on_response(&mut self, status: u16, resp_body: &str) -> (r: SessionStep)
        requires
            old(self).wf(),
            !old(self).done,
        ensures
            final(self).wf(),
            final(self).batch == old(self).batch,
            match classify_spec(status, old(self).attempt) {
                ResponseAction::Success => {
                    &&& r == SessionStep::Done(FlushOutcome::Delivered)
                    &&& final(self).done
                },
                ResponseAction::RetryAfterMs(ms) => {
                    &&& r == SessionStep::Backoff(ms)
                    &&& !final(self).done
                    &&& final(self).attempt == old(self).attempt + 1
                },
                ResponseAction::GiveUp => {
                    &&& final(self).done
                    &&& r == SessionStep::Done(
                        FlushOutcome::Abandoned(
                            diagnose_spec(
                                rejection_code_of(resp_body@),
                                rejection_index_of(resp_body@),
                                old(self).batch.entries@.len() as int,
                            ),
                        ),
                    )
                },
            },
    {
        match classify_response(status, self.attempt) {
            ResponseAction::Success => {
                self.done = true;
                SessionStep::Done(FlushOutcome::Delivered)
            },
            ResponseAction::RetryAfterMs(ms) => {
                self.attempt = self.attempt + 1;
                SessionStep::Backoff(ms)
            },
            ResponseAction::GiveUp => {
                self.done = true;
                let (code, invalid) = rejection_fields(resp_body);
                let d = diagnose_fields(code, invalid, self.batch.entries.len());
                SessionStep::Done(FlushOutcome::Abandoned(d))
            },
        }
    }

    /// Consumes a transport-level failure: the flush ends at once; the
    /// batch is abandoned and only logged.
    pub fn on_transport_error(&mut self) -> (r: SessionStep)
        requires
            !old(self).done,
        ensures
            final(self).wf(),
            final(self).done,
            final(self).batch == old(self).batch,
            r == SessionStep::Done(FlushOutcome::TransportFailed),
    {
        self.done = true;
        SessionStep::Done(FlushOutcome::TransportFailed)
    }

    /// The batch entry a diagnosis points at, when it points inside the
    /// batch.
    pub fn bad_entry(&self, d: &Diagnosis) -> (r: Option<&Vec<u8>>)
        ensures
            match d {
                Diagnosis::BadEvent(i) => if (i as int) < self.batch.entries@.len() {
                    r is Some && r->0@ == self.batch.entries@[*i as int]@
                } else {
                    r is None
                },
                _ => r is None,
            },
    {
        match d {
            Diagnosis::BadEvent(i) => {
                if *i < self.batch.entries.len() {
                    Some(&self.batch.entries[*i])
                } else {
                    None
                }
            },
            _ => None,
        }
    }
}

} // verus!
