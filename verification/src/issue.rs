//! Issuing a challenge: fresh randomness, the present instant as the time of
//! issuance, and a deadline at an offset from it.

use vstd::prelude::*;
use crate::challenge::H;
use crate::encoding::{Challenge, RANDOMNESS_LEN};
use crate::error::PowError;
use crate::time::{add_span, now, parse_rfc3339, to_rfc3339};
use crate::time::{clock_instant, instant_after, instant_of_text, text_of_instant};
use crate::time::{Instant, TimeSpan, NANOS_PER_SEC};
use crate::verify::deadline_open;
use crate::wire::copy_range;

verus! {

/// Calls `openssl::rand::rand_bytes` on a buffer of `len` bytes. Where it
/// succeeds the buffer comes back, filled; nothing is claimed of the bytes.
#[verifier::external_body]
fn openssl_rand_bytes(len: usize) -> (r: Result<Vec<u8>, openssl::error::ErrorStack>)
    requires
        len <= i32::MAX,
    ensures
        r matches Ok(buf) ==> buf@.len() == len,
{
    let mut buf = vec![0u8; len];
    match openssl::rand::rand_bytes(&mut buf) {
        Ok(()) => Ok(buf),
        Err(stack) => Err(stack),
    }
}

/// Fresh randomness for one challenge.
pub fn entropy() -> (r: Result<Vec<u8>, PowError>)
    ensures
        match r {
            Ok(bytes) => bytes@.len() == RANDOMNESS_LEN,
            Err(e) => e == PowError::EntropySourceFailure,
        },
{
    match openssl_rand_bytes(RANDOMNESS_LEN) {
        Ok(bytes) => Ok(bytes),
        Err(_) => Err(PowError::EntropySourceFailure),
    }
}

/// The span behind an optional reference.
pub open spec fn offset_view(o: Option<&TimeSpan>) -> Option<TimeSpan> {
    match o {
        Some(span) => Some(*span),
        None => None,
    }
}

/// The bytes of an optional slice.
pub open spec fn slice_view(m: Option<&[u8]>) -> Option<Seq<u8>> {
    match m {
        Some(b) => Some(b@),
        None => None,
    }
}

/// Whether `end` can stand as the deadline of a challenge issued at `at`
/// with the offset `span`: it is strictly later than `at`, it lies `span`
/// after `at` where `at` is outside a leap second, and it has a text that
/// reads back as `end`.
pub open spec fn keeps_deadline(at: Instant, span: TimeSpan, end: Instant) -> bool {
    &&& end.after(at)
    &&& at.nanos < NANOS_PER_SEC ==> end.nanos_since(at) == span.total_nanos()
    &&& text_of_instant(end) matches Some(t) && instant_of_text(t) == Some(end)
}

/// The deadline of a challenge issued at `at` with the offset `offset`: the
/// instant that far after `at`, where it can stand as the deadline.
pub open spec fn deadline_instant(at: Instant, offset: Option<TimeSpan>) -> Result<
    Option<Instant>,
    PowError,
> {
    match offset {
        None => Ok(None),
        Some(span) => match instant_after(at, span) {
            None => Err(PowError::DeadlineOutOfRange),
            Some(end) => if keeps_deadline(at, span, end) {
                Ok(Some(end))
            } else {
                Err(PowError::DeadlineOutOfRange)
            },
        },
    }
}

/// The deadline text of a challenge issued at `at` with the offset `offset`.
pub open spec fn deadline_text(at: Instant, offset: Option<TimeSpan>) -> Result<
    Option<Seq<char>>,
    PowError,
> {
    match deadline_instant(at, offset) {
        Err(e) => Err(e),
        Ok(None) => Ok(None),
        Ok(Some(end)) => Ok(text_of_instant(end)),
    }
}

/// A challenge that was issued with a deadline has one that is strictly
/// later than its time of issuance, and the offset after it where that time
/// is outside a leap second. The deadline is the text of that instant and
/// reads back as it, so the deadline check passes up to that instant and
/// fails after it.
pub proof fn lemma_issued_deadline_is_later(
    bits: u16,
    at: Instant,
    offset: Option<TimeSpan>,
    randomness: Seq<u8>,
    metadata: Option<Seq<u8>>,
)
    requires
        issued(bits, at, offset, randomness, metadata) is Ok,
    ensures
        ({
            let c = issued(bits, at, offset, randomness, metadata)->Ok_0;
            &&& Some(c.issued_at) == text_of_instant(at)
            &&& c.deadline is Some <==> offset is Some
            &&& offset is Some ==> ({
                let span = offset->Some_0;
                let end = deadline_instant(at, offset)->Ok_0->Some_0;
                &&& end.after(at)
                &&& at.nanos < NANOS_PER_SEC ==> end.nanos_since(at) == span.total_nanos()
                &&& c.deadline == text_of_instant(end)
                &&& instant_of_text(c.deadline->Some_0) == Some(end)
                &&& forall|now: Instant| #[trigger] deadline_open(c, now) == !now.after(end)
            })
        }),
{
}

/// The challenge issued at `at` with the given randomness: its counter is
/// empty, its time of issuance is the text of `at`, and its deadline, where
/// an offset is given, the text of the instant that far after `at`.
pub open spec fn issued(
    bits: u16,
    at: Instant,
    offset: Option<TimeSpan>,
    randomness: Seq<u8>,
    metadata: Option<Seq<u8>>,
) -> Result<Challenge, PowError> {
    if randomness.len() != RANDOMNESS_LEN {
        Err(PowError::EntropySourceFailure)
    } else {
        match text_of_instant(at) {
            None => Err(PowError::ClockUnavailable),
            Some(issued_at) => match deadline_text(at, offset) {
                Err(e) => Err(e),
                Ok(deadline) => Ok(
                    Challenge {
                        bits,
                        issued_at,
                        deadline,
                        randomness,
                        counter: Seq::empty(),
                        metadata,
                    },
                ),
            },
        }
    }
}

/// The view of the challenge in a result.
pub open spec fn outcome_view(r: Result<H, PowError>) -> Result<Challenge, PowError> {
    match r {
        Ok(h) => Ok(h@),
        Err(e) => Err(e),
    }
}

impl H {
    /// Issues a challenge from an instant and randomness that the caller
    /// brings.
    pub fn issue(
        bits: u16,
        at: &Instant,
        deadline_offset: Option<&TimeSpan>,
        randomness: Vec<u8>,
        metadata: Option<&[u8]>,
    ) -> (r: Result<H, PowError>)
        ensures
            outcome_view(r) == issued(
                bits,
                *at,
                offset_view(deadline_offset),
                randomness@,
                slice_view(metadata),
            ),
            r matches Ok(h) ==> h@.well_formed(),
    {
        if randomness.len() != RANDOMNESS_LEN {
            return Err(PowError::EntropySourceFailure);
        }
        let issued_at = match to_rfc3339(at) {
            Some(text) => text,
            None => {
                return Err(PowError::ClockUnavailable);
            },
        };
        let deadline = match deadline_offset {
            None => None,
            Some(span) => {
                let end = match add_span(at, span) {
                    Some(end) => end,
                    None => {
                        return Err(PowError::DeadlineOutOfRange);
                    },
                };
                if !end.is_after(at) {
                    return Err(PowError::DeadlineOutOfRange);
                }
                let text = match to_rfc3339(&end) {
                    Some(text) => text,
                    None => {
                        return Err(PowError::DeadlineOutOfRange);
                    },
                };
                match parse_rfc3339(text.as_str()) {
                    Some(back) => {
                        if back.secs != end.secs || back.nanos != end.nanos {
                            return Err(PowError::DeadlineOutOfRange);
                        }
                    },
                    None => {
                        return Err(PowError::DeadlineOutOfRange);
                    },
                }
                Some(text)
            },
        };
        let payload = match metadata {
            Some(bytes) => Some(copy_range(bytes, 0, bytes.len())),
            None => None,
        };
        proof {
            match metadata {
                Some(bytes) => {
                    assert(bytes@.subrange(0, bytes@.len() as int) =~= bytes@);
                },
                None => {},
            }
        }
        match H::from_parts(bits, issued_at, deadline, randomness, Vec::new(), payload) {
            Some(h) => Ok(h),
            None => Err(PowError::EntropySourceFailure),
        }
    }

    /// Issues a challenge now: draws the randomness, reads the clock and
    /// sets the deadline, where an offset is given, that far from now.
    pub fn new(bits: u16, deadline_offset: Option<&TimeSpan>, metadata: Option<&[u8]>) -> (r:
        Result<H, PowError>)
        ensures
            match r {
                Ok(h) => {
                    &&& h@.well_formed()
                    &&& h@.bits == bits
                    &&& h@.counter == Seq::<u8>::empty()
                    &&& h@.metadata == slice_view(metadata)
                    &&& h@.deadline is Some <==> deadline_offset is Some
                    &&& exists|at: Instant|
                        clock_instant(at) && #[trigger] issued(
                            bits,
                            at,
                            offset_view(deadline_offset),
                            h@.randomness,
                            slice_view(metadata),
                        ) == Ok::<Challenge, PowError>(h@)
                },
                Err(e) => e == PowError::EntropySourceFailure || e == PowError::ClockUnavailable
                    || (e == PowError::DeadlineOutOfRange && deadline_offset is Some),
            },
    {
        let randomness = match entropy() {
            Ok(bytes) => bytes,
            Err(e) => {
                return Err(e);
            },
        };
        let at = match now() {
            Some(at) => at,
            None => {
                return Err(PowError::ClockUnavailable);
            },
        };
        H::issue(bits, &at, deadline_offset, randomness, metadata)
    }
}

} // verus!
