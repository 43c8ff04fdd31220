//! Response normalization: the per-response fork between handing a success
//! body to the caller's decoder untouched and draining a failure body in full
//! to extract a structured API error, plus header lookup and the mapping of
//! transport outcomes onto the unified error type.

use crate::error::{ApiError, Error};
use crate::payload::{parse_api_error, spec_parse_api_error};
use vstd::prelude::*;

verus! {

/// A response status indicates success exactly when it lies in the 2xx range.
pub open spec fn spec_is_success(status: u16) -> bool {
    200 <= status < 300
}

/// Executable mirror of `spec_is_success`.
pub fn is_success(status: u16) -> (r: bool)
    ensures
        r == spec_is_success(status),
{
    200 <= status && status < 300
}

/// The concatenation of a sequence of body chunks, in delivery order.
pub open spec fn spec_flatten(chunks: Seq<Vec<u8>>) -> Seq<u8>
    decreases chunks.len(),
{
    if chunks.len() == 0 {
        Seq::empty()
    } else {
        chunks[0]@ + spec_flatten(chunks.drop_first())
    }
}

proof fn lemma_flatten_push(chunks: Seq<Vec<u8>>, c: Vec<u8>)
    ensures
        spec_flatten(chunks.push(c)) == spec_flatten(chunks) + c@,
    decreases chunks.len(),
{
    if chunks.len() == 0 {
        assert(chunks.push(c).drop_first() =~= chunks);
        assert(spec_flatten(chunks.push(c)) =~= spec_flatten(chunks) + c@);
    } else {
        assert(chunks.push(c).drop_first() =~= chunks.drop_first().push(c));
        lemma_flatten_push(chunks.drop_first(), c);
        assert(spec_flatten(chunks.push(c)) =~= spec_flatten(chunks) + c@);
    }
}

/// Buffers a chunked body into one byte vector, reading every chunk.
pub fn flatten_chunks(chunks: &Vec<Vec<u8>>) -> (r: Vec<u8>)
    ensures
        r@ == spec_flatten(chunks@),
{
    let mut out: Vec<u8> = Vec::new();
    let mut k: usize = 0;
    proof {
        assert(chunks@.subrange(0, 0) =~= Seq::<Vec<u8>>::empty());
        assert(out@ =~= spec_flatten(chunks@.subrange(0, 0)));
    }
    while k < chunks.len()
        invariant
            k <= chunks.len(),
            out@ == spec_flatten(chunks@.subrange(0, k as int)),
        decreases chunks.len() - k,
    {
        let mut j: usize = 0;
        proof {
            assert(out@ =~= spec_flatten(chunks@.subrange(0, k as int)) + chunks@[k as
                int]@.subrange(0, 0));
        }
        while j < chunks[k].len()
            invariant
                k < chunks.len(),
                j <= chunks@[k as int]@.len(),
                out@ == spec_flatten(chunks@.subrange(0, k as int)) + chunks@[k as int]@.subrange(
                    0,
                    j as int,
                ),
            decreases chunks@[k as int]@.len() - j,
        {
            out.push(chunks[k][j]);
            proof {
                assert(chunks@[k as int]@.subrange(0, j as int + 1) =~= chunks@[k as
                    int]@.subrange(0, j as int).push(chunks@[k as int]@[j as int]));
            }
            j = j + 1;
        }
        proof {
            assert(chunks@[k as int]@.subrange(0, chunks@[k as int]@.len() as int) =~= chunks@[k
                as int]@);
            assert(chunks@.subrange(0, k as int + 1) =~= chunks@.subrange(0, k as int).push(
                chunks@[k as int],
            ));
            lemma_flatten_push(chunks@.subrange(0, k as int), chunks@[k as int]);
        }
        k = k + 1;
    }
    proof {
        assert(chunks@.subrange(0, chunks@.len() as int) =~= chunks@);
    }
    out
}

/// What a fully read failure-status body maps to: a structured API error when
/// the payload parses, otherwise the uncategorized raw body.
pub open spec fn spec_failure_error(body: Seq<u8>, r: Error) -> bool {
    match spec_parse_api_error(body) {
        Some((m, c)) => r matches Error::Api { error: ApiError { message, code } }
            && message@ == m && code == c,
        None => r matches Error::Uncategorized { body: b } && b@ == body,
    }
}

/// Turns a fully read failure-status body into the unified error: a
/// structured `Api` error when the payload parses, else `Uncategorized`.
pub fn error_from_body(body: Vec<u8>) -> (r: Error)
    ensures
        spec_failure_error(body@, r),
{
    match parse_api_error(&body) {
        Some(e) => Error::Api { error: e },
        None => Error::Uncategorized { body },
    }
}

/// How the transport delivered a response body: every chunk was read, or the
/// read was interrupted by a transport-level failure.
pub enum BodyRead {
    /// All chunks of the body, in delivery order.
    Complete { chunks: Vec<Vec<u8>> },
    /// The body could not be read to the end.
    Interrupted { message: String },
}

/// What the adapter does with one response in the streaming path.
pub enum StreamStep {
    /// Success: the body chunks go to the caller's decoder exactly as
    /// delivered; the adapter consumes nothing itself.
    Deliver { chunks: Vec<Vec<u8>> },
    /// The call yields an error instead of a stream.
    Fail { error: Error },
}

/// The response fork: a success status hands the body to the caller's decoder
/// untouched; a failure status is answered with an error built from the whole
/// body, and a failed drain masks the payload with a transport error.
pub fn stream_step(status: u16, read: BodyRead) -> (r: StreamStep)
    ensures
        (match read {
            BodyRead::Complete { chunks } => {
                if spec_is_success(status) {
                    r matches StreamStep::Deliver { chunks: out } && out == chunks
                } else {
                    r matches StreamStep::Fail { error }
                        && spec_failure_error(spec_flatten(chunks@), error)
                }
            },
            BodyRead::Interrupted { message } => r matches StreamStep::Fail { error }
                && error matches Error::Transport { message: m } && m == message,
        }),
{
    match read {
        BodyRead::Complete { chunks } => {
            if is_success(status) {
                StreamStep::Deliver { chunks }
            } else {
                let body = flatten_chunks(&chunks);
                StreamStep::Fail { error: error_from_body(body) }
            }
        },
        BodyRead::Interrupted { message } => {
            StreamStep::Fail { error: Error::Transport { message } }
        },
    }
}

/// Chunk boundaries carry no meaning: two deliveries of the same bytes map to
/// the same failure error, however the transport split them.
pub proof fn lemma_failure_error_ignores_chunking(
    c1: Seq<Vec<u8>>,
    c2: Seq<Vec<u8>>,
    r: Error,
)
    requires
        spec_flatten(c1) == spec_flatten(c2),
        spec_failure_error(spec_flatten(c1), r),
    ensures
        spec_failure_error(spec_flatten(c2), r),
{
}

/// What the transport reported for one sent request: a status line and body,
/// or a failure before any response arrived.
pub enum TransportOutcome {
    /// A response arrived; its body chunks are in delivery order.
    Delivered { status: u16, read: BodyRead },
    /// The exchange failed before a response could be read: connection,
    /// TLS, timeout or malformed-response failure.
    Failed { message: String },
}

/// Normalizes the outcome of one buffered exchange to `(status, body)`,
/// reading the body in full, or to the unified error.
///
/// A transport failure is reported as `Error::Transport` with no body ever
/// read; an interrupted body read is likewise a transport error.
pub fn normalize_outcome(outcome: TransportOutcome) -> (r: Result<(u16, Vec<u8>), Error>)
    ensures
        (match outcome {
            TransportOutcome::Delivered { status, read } => match read {
                BodyRead::Complete { chunks } => r matches Ok((st, body)) && st == status
                    && body@ == spec_flatten(chunks@),
                BodyRead::Interrupted { message } => r matches Err(Error::Transport {
                    message: m,
                }) && m == message,
            },
            TransportOutcome::Failed { message } => r matches Err(Error::Transport {
                message: m,
            }) && m == message,
        }),
{
    match outcome {
        TransportOutcome::Delivered { status, read } => match read {
            BodyRead::Complete { chunks } => Ok((status, flatten_chunks(&chunks))),
            BodyRead::Interrupted { message } => Err(Error::Transport { message }),
        },
        TransportOutcome::Failed { message } => Err(Error::Transport { message }),
    }
}

/// Lowercases one ASCII letter code point; other code points are unchanged.
pub open spec fn spec_lower(c: char) -> int {
    if 65 <= c as u32 <= 90 {
        c as u32 + 32
    } else {
        c as u32 as int
    }
}

/// ASCII-case-insensitive equality of two character sequences.
pub open spec fn spec_name_eq(a: Seq<char>, b: Seq<char>) -> bool {
    a.len() == b.len() && forall|i: int| 0 <= i < a.len() ==> spec_lower(a[i]) == spec_lower(b[i])
}

/// Compares two header names, ignoring ASCII case.
fn name_eq(a: &str, b: &str) -> (r: bool)
    ensures
        r == spec_name_eq(a@, b@),
{
    let alen = a.unicode_len();
    let blen = b.unicode_len();
    if alen != blen {
        return false;
    }
    let mut i: usize = 0;
    while i < alen
        invariant
            alen == a@.len(),
            blen == b@.len(),
            alen == blen,
            i <= alen,
            forall|j: int| 0 <= j < i ==> spec_lower(a@[j]) == spec_lower(b@[j]),
        decreases alen - i,
    {
        let ca = a.get_char(i);
        let cb = b.get_char(i);
        let la: u32 = if 65 <= ca as u32 && ca as u32 <= 90 {
            ca as u32 + 32
        } else {
            ca as u32
        };
        let lb: u32 = if 65 <= cb as u32 && cb as u32 <= 90 {
            cb as u32 + 32
        } else {
            cb as u32
        };
        if la != lb {
            return false;
        }
        i = i + 1;
    }
    true
}

/// The first header whose name matches `key` ignoring ASCII case, if any.
pub open spec fn spec_header_lookup(headers: Seq<(String, String)>, key: Seq<char>) -> Option<
    Seq<char>,
>
    decreases headers.len(),
{
    if headers.len() == 0 {
        None
    } else if spec_name_eq(headers[0].0@, key) {
        Some(headers[0].1@)
    } else {
        spec_header_lookup(headers.drop_first(), key)
    }
}

/// Looks a header up by name, ignoring ASCII case, and returns an owned copy
/// of the first matching header's value.
pub fn get_header(headers: &Vec<(String, String)>, key: &str) -> (r: Option<String>)
    ensures
        (match spec_header_lookup(headers@, key@) {
            None => r is None,
            Some(v) => r matches Some(s) && s@ == v,
        }),
{
    let mut k: usize = 0;
    proof {
        assert(headers@.subrange(0, headers@.len() as int) =~= headers@);
    }
    while k < headers.len()
        invariant
            k <= headers.len(),
            spec_header_lookup(headers@, key@) == spec_header_lookup(
                headers@.subrange(k as int, headers@.len() as int),
                key@,
            ),
        decreases headers.len() - k,
    {
        proof {
            assert(headers@.subrange(k as int, headers@.len() as int).drop_first()
                =~= headers@.subrange(k as int + 1, headers@.len() as int));
        }
        if name_eq(headers[k].0.as_str(), key) {
            return Some(headers[k].1.clone());
        }
        k = k + 1;
    }
    None
}

} // verus!
