//! The canonical encoding of a challenge, and its inverse.
//!
//! Fields are written in a fixed order: the difficulty as two little-endian
//! bytes, the issuance time as framed UTF-8 text, the optional deadline, the
//! randomness as it is, the framed counter and the optional metadata.

use vstd::prelude::*;
use vstd::utf8::*;
use crate::wire::{framed, frameable, le_bytes, le_value, optional};
use crate::wire::{split_framed, split_optional};
use crate::wire::{lemma_le_bytes_len, lemma_le_bytes_of_value, lemma_le_value_of_bytes};
use crate::wire::{lemma_framed_of_split_framed, lemma_split_framed_of_framed};
use crate::wire::{lemma_optional_of_split_optional, lemma_split_optional_of_optional};
use crate::wire::lemma_radix_pow_values;

verus! {

/// Number of bytes of randomness in every challenge.
pub const RANDOMNESS_LEN: usize = 64;

/// Width in bytes of the difficulty field.
pub const BITS_WIDTH: usize = 2;

/// A challenge as a mathematical value.
pub struct Challenge {
    /// Number of leading zero bits that the digest must have.
    pub bits: u16,
    /// Time of issuance, as RFC 3339 text.
    pub issued_at: Seq<char>,
    /// Time after which the challenge is void, as RFC 3339 text.
    pub deadline: Option<Seq<char>>,
    /// Entropy that tells this challenge from every other.
    pub randomness: Seq<u8>,
    /// The value under search.
    pub counter: Seq<u8>,
    /// Application payload, carried and not interpreted.
    pub metadata: Option<Seq<u8>>,
}

impl Challenge {
    /// The randomness has its fixed length and every variable field is short
    /// enough for a length prefix.
    pub open spec fn well_formed(self) -> bool {
        &&& self.randomness.len() == RANDOMNESS_LEN
        &&& frameable(encode_utf8(self.issued_at))
        &&& self.deadline matches Some(t) ==> frameable(encode_utf8(t))
        &&& frameable(self.counter)
        &&& self.metadata matches Some(m) ==> frameable(m)
    }

    /// The same challenge with another counter.
    pub open spec fn with_counter(self, counter: Seq<u8>) -> Challenge {
        Challenge { counter, ..self }
    }
}

/// The UTF-8 bytes of an optional text.
pub open spec fn text_bytes(t: Option<Seq<char>>) -> Option<Seq<u8>> {
    match t {
        Some(chars) => Some(encode_utf8(chars)),
        None => None,
    }
}

/// The bytes that stand for `c`.
pub open spec fn encoding(c: Challenge) -> Seq<u8> {
    le_bytes(c.bits as nat, BITS_WIDTH as nat) + (framed(encode_utf8(c.issued_at)) + (optional(
        text_bytes(c.deadline),
    ) + (c.randomness + (framed(c.counter) + optional(c.metadata)))))
}

/// `s` is the encoding of the well-formed challenge `c`.
pub open spec fn is_encoding_of(s: Seq<u8>, c: Challenge) -> bool {
    c.well_formed() && encoding(c) == s
}

/// The challenge that `s` stands for, if it stands for one.
pub open spec fn decoding(s: Seq<u8>) -> Option<Challenge> {
    if exists|c: Challenge| is_encoding_of(s, c) {
        Some(choose|c: Challenge| is_encoding_of(s, c))
    } else {
        None
    }
}

/// Reads an encoding field by field, from the front; `None` where a field is
/// cut short, a tag or a text is invalid, or bytes are left over.
pub open spec fn parsed(s: Seq<u8>) -> Option<Challenge> {
    if s.len() < BITS_WIDTH {
        None
    } else {
        match split_framed(s.skip(BITS_WIDTH as int)) {
            None => None,
            Some((date, s1)) => match split_optional(s1) {
                None => None,
                Some((deadline, s2)) => if s2.len() < RANDOMNESS_LEN {
                    None
                } else {
                    match split_framed(s2.skip(RANDOMNESS_LEN as int)) {
                        None => None,
                        Some((counter, s3)) => match split_optional(s3) {
                            None => None,
                            Some((metadata, s4)) => if s4.len() == 0 && valid_utf8(date) && (
                            deadline matches Some(d) ==> valid_utf8(d)) {
                                Some(
                                    Challenge {
                                        bits: le_value(s.take(BITS_WIDTH as int)) as u16,
                                        issued_at: decode_utf8(date),
                                        deadline: match deadline {
                                            Some(d) => Some(decode_utf8(d)),
                                            None => None,
                                        },
                                        randomness: s2.take(RANDOMNESS_LEN as int),
                                        counter,
                                        metadata,
                                    },
                                )
                            } else {
                                None
                            },
                        },
                    }
                },
            },
        }
    }
}

/// Reading the encoding of a well-formed challenge gives the challenge back.
pub proof fn lemma_parsed_of_encoding(c: Challenge)
    requires
        c.well_formed(),
    ensures
        parsed(encoding(c)) == Some(c),
{
    broadcast use {encode_utf8_valid_utf8, encode_utf8_decode_utf8};

    let s = encoding(c);
    let head = le_bytes(c.bits as nat, BITS_WIDTH as nat);
    let date = encode_utf8(c.issued_at);
    let t4 = optional(c.metadata);
    let t3 = framed(c.counter) + t4;
    let t2 = c.randomness + t3;
    let t1 = optional(text_bytes(c.deadline)) + t2;
    let t0 = framed(date) + t1;
    lemma_le_bytes_len(c.bits as nat, BITS_WIDTH as nat);
    lemma_radix_pow_values();
    lemma_le_value_of_bytes(c.bits as nat, BITS_WIDTH as nat);
    assert(s == head + t0);
    assert(s.take(BITS_WIDTH as int) =~= head);
    assert(s.skip(BITS_WIDTH as int) =~= t0);
    lemma_split_framed_of_framed(date, t1);
    lemma_split_optional_of_optional(text_bytes(c.deadline), t2);
    assert(t2.take(RANDOMNESS_LEN as int) =~= c.randomness);
    assert(t2.skip(RANDOMNESS_LEN as int) =~= t3);
    lemma_split_framed_of_framed(c.counter, t4);
    assert(t4 =~= t4 + Seq::<u8>::empty());
    lemma_split_optional_of_optional(c.metadata, Seq::<u8>::empty());
    let p = parsed(s).unwrap();
    assert(p.deadline == c.deadline);
    assert(p == c);
}

/// What was read is well formed and encodes to exactly the bytes read.
pub proof fn lemma_encoding_of_parsed(s: Seq<u8>)
    requires
        parsed(s) is Some,
    ensures
        is_encoding_of(s, parsed(s).unwrap()),
{
    broadcast use decode_utf8_encode_utf8;

    let c = parsed(s).unwrap();
    let head = s.take(BITS_WIDTH as int);
    let t0 = s.skip(BITS_WIDTH as int);
    let (date, t1) = split_framed(t0).unwrap();
    let (deadline, t2) = split_optional(t1).unwrap();
    let t3 = t2.skip(RANDOMNESS_LEN as int);
    let (counter, t4) = split_framed(t3).unwrap();
    let (metadata, t5) = split_optional(t4).unwrap();
    lemma_le_bytes_of_value(head);
    lemma_radix_pow_values();
    lemma_framed_of_split_framed(t0);
    lemma_optional_of_split_optional(t1);
    lemma_framed_of_split_framed(t3);
    lemma_optional_of_split_optional(t4);
    assert(t5 =~= Seq::<u8>::empty());
    assert(t4 =~= optional(metadata));
    assert(t2 =~= c.randomness + t3);
    assert(s =~= head + t0);
    assert(text_bytes(c.deadline) == deadline);
    assert(le_value(head) as u16 as nat == le_value(head));
}

/// The field-by-field reading is the inverse of the encoding.
pub proof fn lemma_decoding_is_parsed(s: Seq<u8>)
    ensures
        decoding(s) == parsed(s),
{
    if parsed(s) is Some {
        lemma_encoding_of_parsed(s);
        let c = choose|c: Challenge| is_encoding_of(s, c);
        lemma_parsed_of_encoding(c);
    } else {
        if exists|c: Challenge| is_encoding_of(s, c) {
            let c = choose|c: Challenge| is_encoding_of(s, c);
            lemma_parsed_of_encoding(c);
        }
    }
}

/// Decoding the encoding of a well-formed challenge gives the challenge
/// back, field by field: an empty counter and an absent deadline included.
pub proof fn lemma_decoding_of_encoding(c: Challenge)
    requires
        c.well_formed(),
    ensures
        decoding(encoding(c)) == Some(c),
{
    lemma_parsed_of_encoding(c);
    lemma_decoding_is_parsed(encoding(c));
}

/// Only canonical bytes decode: what decodes to `c` is the encoding of `c`.
pub proof fn lemma_encoding_of_decoding(s: Seq<u8>, c: Challenge)
    requires
        decoding(s) == Some(c),
    ensures
        c.well_formed(),
        encoding(c) == s,
{
}

/// Two well-formed challenges with one encoding are one challenge.
pub proof fn lemma_encoding_injective(a: Challenge, b: Challenge)
    requires
        a.well_formed(),
        b.well_formed(),
        encoding(a) == encoding(b),
    ensures
        a == b,
{
    lemma_decoding_of_encoding(a);
    lemma_decoding_of_encoding(b);
}

/// Bytes that differ from the encoding of `c` never decode to `c`.
pub proof fn lemma_changed_bytes_decode_differently(c: Challenge, s: Seq<u8>)
    requires
        c.well_formed(),
        s != encoding(c),
    ensures
        decoding(s) != Some(c),
{
}

/// The encoding depends on the counter: two counters give two encodings.
pub proof fn lemma_counter_shows_in_encoding(c: Challenge, x: Seq<u8>, y: Seq<u8>)
    requires
        c.well_formed(),
        frameable(x),
        frameable(y),
        x != y,
    ensures
        encoding(c.with_counter(x)) != encoding(c.with_counter(y)),
{
    if encoding(c.with_counter(x)) == encoding(c.with_counter(y)) {
        lemma_encoding_injective(c.with_counter(x), c.with_counter(y));
    }
}

} // verus!
