//! The search: try the counter as it stands, then each successor in turn,
//! until the digest meets the difficulty or the time is up.

use vstd::prelude::*;
use std::time::Duration;
use crate::challenge::H;
use crate::counter::{advance, headroom, successor};
use crate::counter::{lemma_advance_adds, lemma_successor_measure};
use crate::encoding::{encoding, Challenge};
use crate::error::PowError;
use crate::time::{now, Instant};
use crate::verify::solved;

verus! {

/// The challenge that the search looks at after `k` steps from `start`.
pub open spec fn candidate(start: Challenge, k: nat) -> Challenge {
    start.with_counter(advance(start.counter, k))
}

/// What a search that took `n` steps has done: it moved the counter of
/// `before` by `n` steps and changed nothing else, and none of the `n`
/// challenges that it left behind was solved.
pub open spec fn searched(before: Challenge, after: Challenge, n: nat) -> bool {
    &&& after == candidate(before, n)
    &&& forall|k: nat| k < n ==> !solved(#[trigger] candidate(before, k))
}

/// Of two searches from one start that both end on a solved challenge, none
/// goes further than the other: the search stops at the first solution.
pub proof fn lemma_first_solution_is_unique(
    start: Challenge,
    a: Challenge,
    m: nat,
    b: Challenge,
    n: nat,
)
    requires
        searched(start, a, m),
        searched(start, b, n),
        solved(a),
        solved(b),
    ensures
        m == n,
        a == b,
{
    if m < n {
        assert(!solved(candidate(start, m)));
    } else if n < m {
        assert(!solved(candidate(start, n)));
    }
}

/// A search from a challenge that is solved takes no step and leaves the
/// challenge as it is.
pub proof fn lemma_solved_is_left_alone(before: Challenge, after: Challenge, n: nat)
    requires
        searched(before, after, n),
        solved(before),
    ensures
        n == 0,
        after == before,
{
    assert(candidate(before, 0) == before);
}

/// A search that stopped can be taken up again: a search of `m` steps and
/// then one of `n` steps from where the first stopped are one search of
/// `m + n` steps.
pub proof fn lemma_search_resumes(a: Challenge, b: Challenge, m: nat, c: Challenge, n: nat)
    requires
        searched(a, b, m),
        searched(b, c, n),
    ensures
        searched(a, c, m + n),
{
    assert forall|k: nat| k <= n implies #[trigger] candidate(b, k) == candidate(a, m + k) by {
        lemma_advance_adds(a.counter, m, k);
    }
    assert forall|k: nat| k < m + n implies !solved(#[trigger] candidate(a, k)) by {
        if k >= m {
            let j = (k - m) as nat;
            assert(candidate(b, j) == candidate(a, m + j));
        }
    }
    assert(candidate(b, n) == candidate(a, m + n));
}

/// Emptying the counter after a search gives back the challenge as it was
/// before the search began with an empty counter, and so its encoding.
pub proof fn lemma_clear_undoes_search(before: Challenge, after: Challenge, n: nat)
    requires
        searched(before, after, n),
        before.counter == Seq::<u8>::empty(),
    ensures
        after.with_counter(Seq::empty()) == before,
        encoding(after.with_counter(Seq::empty())) == encoding(before),
{
}

/// The outcomes that only a look at the clock brings about: the time is up,
/// or the clock cannot be read.
pub open spec fn stopped_by_clock(r: Result<bool, PowError>) -> bool {
    r == Ok::<bool, PowError>(false) || r == Err::<bool, PowError>(PowError::ClockUnavailable)
}

impl H {
    /// Searches for a counter that solves the challenge, starting with the
    /// counter as it stands. `Ok(true)`: the challenge is solved and holds
    /// the first solution on the way; a challenge that is solved on entry is
    /// left as it is, whatever the time limit. `Ok(false)`: the counter as it
    /// stood was no solution, the search went at least one step on, and more
    /// than `time_out` has passed; the counter stands where the search
    /// stopped, and a later call goes on from there. With a time limit the
    /// clock is read on entry and after each step; a clock that cannot be
    /// read is reported only after a step. Without a time limit the search
    /// ends only with a solution or an error. The counter never gets shorter.
    pub fn solve(&mut self, time_out: Option<Duration>) -> (r: Result<bool, PowError>)
        ensures
            exists|n: nat|
                #[trigger] searched(old(self)@, final(self)@, n) && (stopped_by_clock(r) ==> n
                    >= 1),
            final(self)@.counter.len() >= old(self)@.counter.len(),
            solved(old(self)@) ==> final(self)@ == old(self)@ && !stopped_by_clock(r),
            match r {
                Ok(found) => if found {
                    solved(final(self)@)
                } else {
                    time_out is Some
                },
                Err(e) => e == PowError::DigestUnavailable || (e == PowError::ClockUnavailable
                    && time_out is Some),
            },
    {
        let ghost before = self@;
        let ghost mut steps: nat = 0;
        proof {
            assert(candidate(before, 0) == before);
            assert(searched(before, self@, 0));
        }
        let watch: Option<(Option<Instant>, u128)> = match time_out {
            Some(limit) => Some((now(), limit.as_nanos())),
            None => None,
        };
        // The loop ends: a counter never outgrows its length prefix, and at
        // one length it can only be bumped as often as its bytes have headroom.
        loop
            invariant
                before == old(self)@,
                searched(before, self@, steps),
                self@.counter.len() >= before.counter.len(),
                watch is Some ==> time_out is Some,
            decreases u64::MAX - self@.counter.len(), headroom(self@.counter),
        {
            match self.verify_hash() {
                Ok(found) => {
                    if found {
                        proof {
                            if solved(before) {
                                lemma_solved_is_left_alone(before, self@, steps);
                            }
                        }
                        return Ok(true);
                    }
                },
                Err(e) => {
                    proof {
                        if solved(before) {
                            lemma_solved_is_left_alone(before, self@, steps);
                        }
                    }
                    return Err(e);
                },
            }
            let ghost tried = self@;
            proof {
                lemma_successor_measure(tried.counter);
            }
            self.increment_counter();
            proof {
                assert(candidate(before, steps + 1) == tried.with_counter(
                    successor(tried.counter),
                ));
                assert forall|k: nat| k < steps + 1 implies !solved(
                    #[trigger] candidate(before, k),
                ) by {
                    if k == steps {
                        assert(candidate(before, k) == tried);
                    }
                }
                steps = steps + 1;
                assert(searched(before, self@, steps));
                assert(!solved(candidate(before, 0)));
                assert(candidate(before, 0) == before);
            }
            match &watch {
                Some((Some(start), limit)) => match now() {
                    Some(at) => {
                        if at.exceeds(start, *limit) {
                            return Ok(false);
                        }
                    },
                    None => {
                        return Err(PowError::ClockUnavailable);
                    },
                },
                Some((None, _)) => {
                    return Err(PowError::ClockUnavailable);
                },
                None => {},
            }
        }
    }
}

} // verus!
