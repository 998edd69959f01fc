//! Verification: the digest of the encoded challenge must meet the
//! difficulty, and the deadline, where there is one, must not have passed.

use vstd::prelude::*;
use crate::challenge::H;
use crate::difficulty::{meets_difficulty, satisfies};
use crate::digest::{digest, sha3_512, DIGEST_LEN};
use crate::encoding::{decoding, encoding, Challenge};
use crate::error::PowError;
use crate::time::{clock_instant, instant_of_text, now, parse_rfc3339, Instant};

verus! {

/// The digest of a challenge: that of its encoding, counter included.
pub open spec fn digest_of(c: Challenge) -> Seq<u8> {
    sha3_512(encoding(c))
}

/// The digest of `c` has exactly the number of leading zero bits that `c`
/// asks for.
pub open spec fn solved(c: Challenge) -> bool {
    satisfies(c.bits, digest_of(c))
}

/// The deadline check at the instant `now`: a challenge without a deadline
/// passes; one with a deadline passes unless `now` is strictly after it. A
/// deadline that is no RFC 3339 text fails.
pub open spec fn deadline_open(c: Challenge, now: Instant) -> bool {
    match c.deadline {
        None => true,
        Some(t) => match instant_of_text(t) {
            Some(end) => !now.after(end),
            None => false,
        },
    }
}

/// Both checks at the instant `now`.
pub open spec fn valid_at(c: Challenge, now: Instant) -> bool {
    deadline_open(c, now) && solved(c)
}

/// What decodes is judged by the digest of the very bytes it was decoded
/// from. Bytes that differ from the encoding of `c` and still decode give
/// another challenge than `c`, and that one passes verification only if the
/// digest of the changed bytes meets its difficulty.
pub proof fn lemma_changed_bytes_are_judged_anew(c: Challenge, s: Seq<u8>, d: Challenge)
    requires
        c.well_formed(),
        s != encoding(c),
        decoding(s) == Some(d),
    ensures
        d != c,
        digest_of(d) == sha3_512(s),
        forall|now: Instant| #[trigger] valid_at(d, now) ==> satisfies(d.bits, sha3_512(s)),
{
}

impl H {
    /// The digest of the challenge as it stands.
    pub fn hash(&self) -> (r: Result<Vec<u8>, PowError>)
        ensures
            match r {
                Ok(d) => d@ == digest_of(self@) && d@.len() == DIGEST_LEN,
                Err(e) => e == PowError::DigestUnavailable,
            },
            self@.well_formed(),
    {
        let bytes = self.to_bytes();
        digest(bytes.as_slice())
    }

    /// The hash check: whether the digest meets the difficulty.
    pub fn verify_hash(&self) -> (r: Result<bool, PowError>)
        ensures
            match r {
                Ok(ok) => ok == solved(self@),
                Err(e) => e == PowError::DigestUnavailable,
            },
            self@.well_formed(),
    {
        match self.hash() {
            Ok(d) => Ok(meets_difficulty(self.bits(), d.as_slice())),
            Err(e) => Err(e),
        }
    }

    /// The deadline check at a given instant.
    pub fn verify_deadline_at(&self, now: &Instant) -> (ok: bool)
        ensures
            ok == deadline_open(self@, *now),
    {
        match self.deadline() {
            None => true,
            Some(t) => match parse_rfc3339(t.as_str()) {
                Some(end) => !now.is_after(&end),
                None => false,
            },
        }
    }

    /// The deadline check at the present instant. The clock is read only
    /// where there is a deadline.
    pub fn verify_deadline(&self) -> (r: Result<bool, PowError>)
        ensures
            match r {
                Ok(ok) => exists|at: Instant|
                    clock_instant(at) && ok == #[trigger] deadline_open(self@, at),
                Err(e) => e == PowError::ClockUnavailable && self@.deadline is Some,
            },
    {
        if self.deadline().is_none() {
            let ghost at = Instant { secs: 0, nanos: 0 };
            assert(deadline_open(self@, at));
            return Ok(true);
        }
        match now() {
            Some(at) => Ok(self.verify_deadline_at(&at)),
            None => Err(PowError::ClockUnavailable),
        }
    }

    /// Both checks at a given instant. The digest is computed only where the
    /// deadline check passes.
    pub fn verify_at(&self, now: &Instant) -> (r: Result<bool, PowError>)
        ensures
            match r {
                Ok(ok) => ok == valid_at(self@, *now),
                Err(e) => e == PowError::DigestUnavailable && deadline_open(self@, *now),
            },
    {
        if !self.verify_deadline_at(now) {
            return Ok(false);
        }
        self.verify_hash()
    }

    /// Verifies the challenge at the present instant: `true` only if the
    /// deadline, where there is one, has not passed and the digest meets the
    /// difficulty. Without a deadline the clock is not read and the result
    /// is that of the hash check alone.
    pub fn verify(&self) -> (r: Result<bool, PowError>)
        ensures
            match r {
                Ok(ok) => (exists|at: Instant|
                    clock_instant(at) && ok == #[trigger] valid_at(self@, at)) && (
                self@.deadline is None ==> ok == solved(self@)),
                Err(e) => (e == PowError::ClockUnavailable && self@.deadline is Some) || e
                    == PowError::DigestUnavailable,
            },
    {
        if self.deadline().is_none() {
            let r = self.verify_hash();
            proof {
                let at = Instant { secs: 0, nanos: 0 };
                assert(valid_at(self@, at) == solved(self@));
            }
            return r;
        }
        match now() {
            Some(at) => self.verify_at(&at),
            None => Err(PowError::ClockUnavailable),
        }
    }
}

} // verus!
