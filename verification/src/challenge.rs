//! The challenge as a value that programs hold, with its encoder and decoder.

use vstd::prelude::*;
use vstd::utf8::{encode_utf8, encode_utf8_decode_utf8, valid_utf8};
use crate::counter::{successor, increment_counter};
use crate::encoding::{Challenge, RANDOMNESS_LEN, BITS_WIDTH};
use crate::encoding::{decoding, encoding, parsed, text_bytes};
use crate::encoding::lemma_decoding_is_parsed;
use crate::error::PowError;
use crate::time::text_view;
use crate::wire::{copy_range, get_uint, put_bytes, put_framed, put_uint};
use crate::wire::{read_framed, read_optional, optional_view};
use crate::wire::{framed, frameable, optional, le_bytes};
use crate::wire::{lemma_le_bytes_of_value, lemma_radix_pow_values};

verus! {

/// The error of `String::from_utf8`, which the decoder maps to its own.
#[verifier::external_type_specification]
#[verifier::external_body]
pub struct ExFromUtf8Error(std::string::FromUtf8Error);

/// `String::from_utf8` accepts exactly the byte strings that are valid
/// UTF-8, and the string it gives has the given bytes as its bytes.
pub assume_specification[ String::from_utf8 ](vec: Vec<u8>) -> (r: Result<
    String,
    std::string::FromUtf8Error,
>)
    ensures
        r is Ok <==> valid_utf8(vec@),
        r matches Ok(s) ==> encode_utf8(s@) == vec@,
;

/// A proof-of-work challenge: a difficulty, the time of issuance, an optional
/// deadline, the issuer's randomness, the counter under search and an
/// optional payload.
#[derive(Debug, PartialEq, Eq)]
pub struct H {
    bits: u16,
    date: String,
    deadline: Option<String>,
    rand: Vec<u8>,
    counter: Vec<u8>,
    meta: Option<Vec<u8>>,
}

impl View for H {
    type V = Challenge;

    closed spec fn view(&self) -> Challenge {
        Challenge {
            bits: self.bits,
            issued_at: self.date@,
            deadline: text_view(self.deadline),
            randomness: self.rand@,
            counter: self.counter@,
            metadata: optional_view(self.meta),
        }
    }
}

impl H {
    #[verifier::type_invariant]
    spec fn fields_fit(self) -> bool {
        &&& self.rand@.len() == RANDOMNESS_LEN
        &&& frameable(encode_utf8(self.date@))
        &&& self.deadline matches Some(t) ==> frameable(encode_utf8(t@))
    }

    /// Puts a challenge together from its fields; `None` where the randomness
    /// has not its fixed length.
    pub fn from_parts(
        bits: u16,
        issued_at: String,
        deadline: Option<String>,
        randomness: Vec<u8>,
        counter: Vec<u8>,
        metadata: Option<Vec<u8>>,
    ) -> (r: Option<H>)
        ensures
            r is Some <==> randomness@.len() == RANDOMNESS_LEN,
            r matches Some(h) ==> h@.well_formed() && h@ == (Challenge {
                bits,
                issued_at: issued_at@,
                deadline: text_view(deadline),
                randomness: randomness@,
                counter: counter@,
                metadata: optional_view(metadata),
            }),
    {
        if randomness.len() != RANDOMNESS_LEN {
            return None;
        }
        note_text_fits(issued_at.as_str());
        match &deadline {
            Some(t) => {
                note_text_fits(t.as_str());
            },
            None => {},
        }
        proof {
            lemma_bytes_fit(&counter);
            match &metadata {
                Some(m) => {
                    lemma_bytes_fit(m);
                },
                None => {},
            }
        }
        Some(H { bits, date: issued_at, deadline, rand: randomness, counter, meta: metadata })
    }

    /// The required number of leading zero bits.
    pub fn bits(&self) -> (b: u16)
        ensures
            b == self@.bits,
    {
        self.bits
    }

    /// The time of issuance, as RFC 3339 text.
    pub fn issued_at(&self) -> (t: &String)
        ensures
            t@ == self@.issued_at,
    {
        &self.date
    }

    /// The deadline, as RFC 3339 text, if there is one.
    pub fn deadline(&self) -> (t: &Option<String>)
        ensures
            text_view(*t) == self@.deadline,
    {
        &self.deadline
    }

    /// The issuer's randomness.
    pub fn randomness(&self) -> (r: &Vec<u8>)
        ensures
            r@ == self@.randomness,
            r@.len() == RANDOMNESS_LEN,
    {
        proof {
            use_type_invariant(self);
        }
        &self.rand
    }

    /// The counter as the search has left it.
    pub fn counter(&self) -> (c: &Vec<u8>)
        ensures
            c@ == self@.counter,
    {
        &self.counter
    }

    /// The payload, if there is one.
    pub fn metadata(&self) -> (m: &Option<Vec<u8>>)
        ensures
            optional_view(*m) == self@.metadata,
    {
        &self.meta
    }

    /// Encodes the challenge, counter included.
    pub fn to_bytes(&self) -> (out: Vec<u8>)
        ensures
            self@.well_formed(),
            out@ == encoding(self@),
    {
        proof {
            use_type_invariant(self);
            lemma_bytes_fit(&self.counter);
            match &self.meta {
                Some(m) => {
                    lemma_bytes_fit(m);
                },
                None => {},
            }
        }
        let ghost c = self@;
        let mut tail: Vec<u8> = Vec::new();
        put_uint(&mut tail, self.bits as u64, BITS_WIDTH);
        put_framed(&mut tail, self.date.as_str().as_bytes());
        match &self.deadline {
            Some(t) => {
                tail.push(1);
                put_framed(&mut tail, t.as_str().as_bytes());
            },
            None => {
                tail.push(0);
            },
        }
        put_bytes(&mut tail, self.rand.as_slice());
        put_framed(&mut tail, self.counter.as_slice());
        match &self.meta {
            Some(m) => {
                tail.push(1);
                put_framed(&mut tail, m.as_slice());
            },
            None => {
                tail.push(0);
            },
        }
        proof {
            let head = le_bytes(c.bits as nat, BITS_WIDTH as nat);
            let date = framed(encode_utf8(c.issued_at));
            let dl = optional(text_bytes(c.deadline));
            let meta = optional(c.metadata);
            assert(tail@ =~= head + date + dl + c.randomness + framed(c.counter) + meta);
            assert(tail@ =~= encoding(c));
        }
        tail
    }

    /// Decodes a challenge; fails on bytes that are no encoding of one.
    pub fn from_bytes(bytes: &[u8]) -> (r: Result<H, PowError>)
        ensures
            match r {
                Ok(h) => decoding(bytes@) == Some(h@),
                Err(e) => e == PowError::MalformedEncoding && decoding(bytes@) is None,
            },
    {
        broadcast use encode_utf8_decode_utf8;

        proof {
            lemma_decoding_is_parsed(bytes@);
        }
        let len: usize = bytes.len();
        if len < BITS_WIDTH {
            return Err(PowError::MalformedEncoding);
        }
        let raw_bits: u64 = get_uint(bytes, 0, BITS_WIDTH);
        proof {
            assert(bytes@.subrange(0, BITS_WIDTH as int) =~= bytes@.take(BITS_WIDTH as int));
            lemma_le_bytes_of_value(bytes@.take(BITS_WIDTH as int));
            lemma_radix_pow_values();
        }
        let bits: u16 = raw_bits as u16;
        let (date_bytes, date_end) = match read_framed(bytes, BITS_WIDTH) {
            Some(found) => found,
            None => {
                return Err(PowError::MalformedEncoding);
            },
        };
        let (deadline_bytes, deadline_end) = match read_optional(bytes, date_end) {
            Some(found) => found,
            None => {
                return Err(PowError::MalformedEncoding);
            },
        };
        if len - deadline_end < RANDOMNESS_LEN {
            return Err(PowError::MalformedEncoding);
        }
        let rand = copy_range(bytes, deadline_end, deadline_end + RANDOMNESS_LEN);
        proof {
            let s2 = bytes@.skip(deadline_end as int);
            assert(rand@ =~= s2.take(RANDOMNESS_LEN as int));
            assert(s2.skip(RANDOMNESS_LEN as int) =~= bytes@.skip(deadline_end + RANDOMNESS_LEN));
        }
        let (counter, counter_end) = match read_framed(bytes, deadline_end + RANDOMNESS_LEN) {
            Some(found) => found,
            None => {
                return Err(PowError::MalformedEncoding);
            },
        };
        let (meta, meta_end) = match read_optional(bytes, counter_end) {
            Some(found) => found,
            None => {
                return Err(PowError::MalformedEncoding);
            },
        };
        if meta_end != len {
            return Err(PowError::MalformedEncoding);
        }
        proof {
            lemma_bytes_fit(&date_bytes);
            match &deadline_bytes {
                Some(b) => {
                    lemma_bytes_fit(b);
                },
                None => {},
            }
        }
        let date = match String::from_utf8(date_bytes) {
            Ok(text) => text,
            Err(_) => {
                return Err(PowError::MalformedEncoding);
            },
        };
        let deadline = match deadline_bytes {
            Some(b) => match String::from_utf8(b) {
                Ok(text) => Some(text),
                Err(_) => {
                    return Err(PowError::MalformedEncoding);
                },
            },
            None => None,
        };
        let h = H { bits, date, deadline, rand, counter, meta };
        proof {
            assert(h@ == parsed(bytes@).unwrap());
        }
        Ok(h)
    }

    /// Empties the counter and leaves every other field as it is.
    pub fn clear_counter(&mut self)
        ensures
            final(self)@ == old(self)@.with_counter(Seq::empty()),
            final(self)@.well_formed(),
    {
        proof {
            use_type_invariant(&*self);
            match &self.meta {
                Some(m) => {
                    lemma_bytes_fit(m);
                },
                None => {},
            }
        }
        self.counter = Vec::new();
    }

    /// Moves the counter to its successor and leaves every other field as it
    /// is.
    pub fn increment_counter(&mut self)
        ensures
            final(self)@ == old(self)@.with_counter(successor(old(self)@.counter)),
            final(self)@.well_formed(),
    {
        proof {
            use_type_invariant(&*self);
            match &self.meta {
                Some(m) => {
                    lemma_bytes_fit(m);
                },
                None => {},
            }
        }
        let mut counter: Vec<u8> = Vec::new();
        std::mem::swap(&mut self.counter, &mut counter);
        increment_counter(&mut counter);
        proof {
            lemma_bytes_fit(&counter);
        }
        self.counter = counter;
    }
}

/// The bytes of a string that a program holds fit a length prefix. Does
/// nothing when run.
fn note_text_fits(t: &str)
    ensures
        frameable(encode_utf8(t@)),
{
    let b = t.as_bytes();
    assert(b@.len() == b.len());
}

/// The bytes of a vector that a program holds fit a length prefix.
proof fn lemma_bytes_fit(v: &Vec<u8>)
    ensures
        frameable(v@),
{
    let n = v.len();
}

} // verus!
