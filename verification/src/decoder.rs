//! The byte-safe decoder: turns an arbitrary byte stream into valid
//! text chunk by chunk, dropping byte-order marks and NUL characters,
//! and serves the decoded bytes on demand.
//!
//! Decoding is chunk-local: a multi-byte sequence split across a chunk
//! boundary may be replaced on each side - an accepted, documented
//! lossy tradeoff, not a defect.

use vstd::prelude::*;
use vstd::string::{StrSliceExecFns, StringSliceAdditionalSpecFns};

verus! {

/// The chunk size the reader asks its byte source for.
pub const CHUNK_SIZE: usize = 8192;

/// What String::from_utf8_lossy makes of a byte chunk: a function of
/// the bytes alone.
pub uninterp spec fn lossy_of(b: Seq<u8>) -> Seq<char>;

/// Relies on String::from_utf8_lossy: invalid sequences are replaced
/// with the substitution character, valid UTF-8 passes through
/// unchanged, and an empty chunk decodes to nothing.
#[verifier::external_body]
fn decode_lossy(chunk: &[u8]) -> (r: String)
    ensures
        r@ == lossy_of(chunk@),
        chunk@.len() == 0 ==> r@.len() == 0,
        vstd::utf8::valid_utf8(chunk@) ==> r@ == vstd::utf8::decode_utf8(chunk@),
{
    String::from_utf8_lossy(chunk).into_owned()
}

/// Whether a character survives the per-chunk stripping: everything
/// but the byte-order mark and NUL.
pub open spec fn keep_char(c: char) -> bool {
    c != '\u{feff}' && c != '\u{0}'
}

/// The characters of `s` with byte-order marks and NULs removed.
pub open spec fn strip_marks_spec(s: Seq<char>) -> Seq<char>
    decreases s.len(),
{
    if s.len() == 0 {
        Seq::empty()
    } else if keep_char(s.last()) {
        strip_marks_spec(s.drop_last()).push(s.last())
    } else {
        strip_marks_spec(s.drop_last())
    }
}

/// Stripped text holds no byte-order mark and no NUL.
pub proof fn lemma_strip_no_marks(s: Seq<char>)
    ensures
        forall|i: int|
            0 <= i < strip_marks_spec(s).len() ==> keep_char(#[trigger] strip_marks_spec(s)[i]),
    decreases s.len(),
{
    if s.len() > 0 {
        lemma_strip_no_marks(s.drop_last());
        assert forall|i: int|
            0 <= i < strip_marks_spec(s).len() implies keep_char(
            strip_marks_spec(s)[i],
        ) by {
            if keep_char(s.last()) {
                if i < strip_marks_spec(s.drop_last()).len() {
                    assert(strip_marks_spec(s)[i] == strip_marks_spec(s.drop_last())[i]);
                } else {
                    assert(strip_marks_spec(s)[i] == s.last());
                }
            } else {
                assert(strip_marks_spec(s)[i] == strip_marks_spec(s.drop_last())[i]);
            }
        }
    }
}

/// Text assembled from mark-free pieces is mark-free: what each
/// decoded chunk guarantees carries over to the whole stream, whatever
/// the chunk sizes were.
pub proof fn lemma_no_marks_concat(a: Seq<char>, b: Seq<char>)
    requires
        forall|i: int| 0 <= i < a.len() ==> keep_char(#[trigger] a[i]),
        forall|i: int| 0 <= i < b.len() ==> keep_char(#[trigger] b[i]),
    ensures
        forall|i: int| 0 <= i < (a + b).len() ==> keep_char(#[trigger] (a + b)[i]),
{
}

/// The whole decoded stream: the texts of the raw chunks, in order,
/// however the input was cut into chunks.
pub open spec fn stream_text_spec(chunks: Seq<Seq<u8>>) -> Seq<char>
    decreases chunks.len(),
{
    if chunks.len() == 0 {
        Seq::empty()
    } else {
        stream_text_spec(chunks.drop_last()) + chunk_text_spec(chunks.last())
    }
}

/// For any byte sequence fed in arbitrary chunk sizes, the
/// concatenated decoded output holds no byte-order mark and no NUL:
/// it is clean text end to end.
pub proof fn lemma_stream_text_clean(chunks: Seq<Seq<u8>>)
    ensures
        forall|i: int|
            0 <= i < stream_text_spec(chunks).len() ==> keep_char(
                #[trigger] stream_text_spec(chunks)[i],
            ),
    decreases chunks.len(),
{
    if chunks.len() > 0 {
        lemma_stream_text_clean(chunks.drop_last());
        lemma_strip_no_marks(lossy_of(chunks.last()));
        lemma_no_marks_concat(
            stream_text_spec(chunks.drop_last()),
            chunk_text_spec(chunks.last()),
        );
    }
}

/// Strips byte-order marks and NULs out of one decoded chunk.
fn strip_marks(s: &str) -> (r: String)
    ensures
        r@ == strip_marks_spec(s@),
{
    let n = s.unicode_len();
    let mut out = String::new();
    let mut i: usize = 0;
    while i < n
        invariant
            i <= n,
            n == s@.len(),
            out@ == strip_marks_spec(s@.take(i as int)),
        decreases n - i,
    {
        let c = s.get_char(i);
        proof {
            assert(s@.take(i + 1).drop_last() =~= s@.take(i as int));
            assert(s@.take(i + 1).last() == s@[i as int]);
        }
        if c != '\u{feff}' && c != '\u{0}' {
            let piece = s.substring_char(i, i + 1);
            proof {
                assert(piece@ =~= seq![s@[i as int]]);
            }
            out.append(piece);
            proof {
                assert(out@ =~= strip_marks_spec(s@.take(i + 1)));
            }
        } else {
            proof {
                assert(out@ =~= strip_marks_spec(s@.take(i + 1)));
            }
        }
        i += 1;
    }
    proof {
        assert(s@.take(n as int) =~= s@);
    }
    out
}

/// The text one raw chunk contributes to the stream: the lossy
/// decoding with marks stripped.
pub open spec fn chunk_text_spec(chunk: Seq<u8>) -> Seq<char> {
    strip_marks_spec(lossy_of(chunk))
}

/// Decodes one raw chunk to clean text.
pub fn decode_chunk(chunk: &[u8]) -> (r: String)
    ensures
        r@ == chunk_text_spec(chunk@),
{
    let decoded = decode_lossy(chunk);
    strip_marks(decoded.as_str())
}

/// A streaming lossy text decoder: decodes raw chunks one at a time
/// and serves the decoded bytes on demand, carrying undelivered bytes
/// over to the next read.
pub struct LossyUtf8Reader {
    pub out_buf: Vec<u8>,
    pub out_pos: usize,
}

impl LossyUtf8Reader {
    /// The serving position never passes the buffer's end.
    pub open spec fn wf(self) -> bool {
        self.out_pos <= self.out_buf@.len()
    }

    /// The decoded bytes not yet served.
    pub open spec fn pending_bytes(self) -> Seq<u8> {
        self.out_buf@.skip(self.out_pos as int)
    }

    /// A fresh reader with nothing buffered.
    pub fn new() -> (r: Self)
        ensures
            r.wf(),
            r.pending_bytes().len() == 0,
    {
        let r = LossyUtf8Reader { out_buf: Vec::new(), out_pos: 0 };
        proof {
            assert(r.pending_bytes() =~= Seq::<u8>::empty());
        }
        r
    }

    /// How many decoded bytes wait to be served.
    pub fn pending(&self) -> (r: usize)
        requires
            self.wf(),
        ensures
            r == self.pending_bytes().len(),
    {
        self.out_buf.len() - self.out_pos
    }

    /// Decodes one raw chunk and buffers its clean text as UTF-8
    /// bytes; only a drained reader accepts the next chunk.
    pub fn feed_chunk(&mut self, chunk: &[u8])
        requires
            old(self).wf(),
            old(self).pending_bytes().len() == 0,
        ensures
            final(self).wf(),
            final(self).pending_bytes() == vstd::utf8::encode_utf8(chunk_text_spec(chunk@)),
    {
        let text = decode_chunk(chunk);
        self.out_buf = text.as_str().as_bytes_vec();
        self.out_pos = 0;
        proof {
            assert(final(self).pending_bytes() =~= final(self).out_buf@);
        }
    }

    /// Serves up to `max` of the pending decoded bytes, advancing past
    /// them; a drained reader at end of stream serves a zero-length
    /// read.
    pub fn read(&mut self, max: usize) -> (r: Vec<u8>)
        requires
            old(self).wf(),
        ensures
            final(self).wf(),
            r@ == old(self).pending_bytes().take(
                if max <= old(self).pending_bytes().len() {
                    max as int
                } else {
                    old(self).pending_bytes().len() as int
                },
            ),
            final(self).pending_bytes() == old(self).pending_bytes().skip(r@.len() as int),
    {
        let avail = self.out_buf.len() - self.out_pos;
        let take_n = if max < avail {
            max
        } else {
            avail
        };
        let mut out: Vec<u8> = Vec::new();
        let mut k: usize = 0;
        while k < take_n
            invariant
                k <= take_n,
                self.out_pos + take_n <= self.out_buf@.len(),
                self.out_buf@.len() <= usize::MAX,
                out@ == self.out_buf@.subrange(self.out_pos as int, self.out_pos + k),
            decreases take_n - k,
        {
            out.push(self.out_buf[self.out_pos + k]);
            k += 1;
            assert(out@ =~= self.out_buf@.subrange(self.out_pos as int, self.out_pos + k));
        }
        self.out_pos = self.out_pos + take_n;
        proof {
            assert(out@ =~= old(self).pending_bytes().take(
                if max <= old(self).pending_bytes().len() {
                    max as int
                } else {
                    old(self).pending_bytes().len() as int
                },
            ));
            assert(final(self).pending_bytes() =~= old(self).pending_bytes().skip(
                out@.len() as int,
            ));
        }
        out
    }
}

} // verus!
