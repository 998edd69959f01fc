//! Byte-level framing used by the challenge encoding: little-endian unsigned
//! integers of fixed width, length-prefixed byte strings and optional fields.

use vstd::prelude::*;

verus! {

/// Width in bytes of a length prefix.
pub const LEN_WIDTH: usize = 8;

/// 256 to the power `width`.
pub open spec fn radix_pow(width: nat) -> nat
    decreases width,
{
    if width == 0 {
        1
    } else {
        256 * radix_pow((width - 1) as nat)
    }
}

/// The `width` low-order bytes of `x`, least significant first.
pub open spec fn le_bytes(x: nat, width: nat) -> Seq<u8>
    decreases width,
{
    if width == 0 {
        Seq::empty()
    } else {
        seq![(x % 256) as u8] + le_bytes(x / 256, (width - 1) as nat)
    }
}

/// The number that `s` spells, least significant byte first.
pub open spec fn le_value(s: Seq<u8>) -> nat
    decreases s.len(),
{
    if s.len() == 0 {
        0
    } else {
        s[0] as nat + 256 * le_value(s.skip(1))
    }
}

/// A byte string behind its length, written as `LEN_WIDTH` bytes.
pub open spec fn framed(b: Seq<u8>) -> Seq<u8> {
    le_bytes(b.len(), LEN_WIDTH as nat) + b
}

/// An optional byte string: a tag byte 0 when absent, a tag byte 1 and the
/// framed bytes when present.
pub open spec fn optional(o: Option<Seq<u8>>) -> Seq<u8> {
    match o {
        None => seq![0u8],
        Some(b) => seq![1u8] + framed(b),
    }
}

/// A byte string short enough for its length to fit the prefix.
pub open spec fn frameable(b: Seq<u8>) -> bool {
    b.len() <= u64::MAX
}

/// A number written in `width` bytes takes `width` bytes.
pub proof fn lemma_le_bytes_len(x: nat, width: nat)
    ensures
        le_bytes(x, width).len() == width,
    decreases width,
{
    if width > 0 {
        lemma_le_bytes_len(x / 256, (width - 1) as nat);
    }
}

/// A number below `256^width` is read back from its `width` bytes.
pub proof fn lemma_le_value_of_bytes(x: nat, width: nat)
    requires
        x < radix_pow(width),
    ensures
        le_value(le_bytes(x, width)) == x,
    decreases width,
{
    if width > 0 {
        let rest = le_bytes(x / 256, (width - 1) as nat);
        let all = le_bytes(x, width);
        assert(all.skip(1) =~= rest);
        assert(all[0] == (x % 256) as u8);
        lemma_le_value_of_bytes(x / 256, (width - 1) as nat);
    }
}

/// What `s` spells is below `256^len`, and writing it back gives `s`.
pub proof fn lemma_le_bytes_of_value(s: Seq<u8>)
    ensures
        le_value(s) < radix_pow(s.len()),
        le_bytes(le_value(s), s.len()) == s,
    decreases s.len(),
{
    if s.len() > 0 {
        let tail = s.skip(1);
        lemma_le_bytes_of_value(tail);
        let v = le_value(s);
        assert(v % 256 == s[0] as nat);
        assert(v / 256 == le_value(tail));
        assert(le_bytes(v, s.len()) =~= s);
    }
}

/// The powers of 256 for the two widths that the encoding uses.
pub proof fn lemma_radix_pow_values()
    ensures
        radix_pow(2) == 0x1_0000,
        radix_pow(8) == 0x1_0000_0000_0000_0000,
{
    reveal_with_fuel(radix_pow, 9);
}

/// Up to eight bytes spell a number that fits 64 bits.
pub proof fn lemma_radix_pow_bound(width: nat)
    requires
        width <= 8,
    ensures
        radix_pow(width) <= 0x1_0000_0000_0000_0000,
{
    reveal_with_fuel(radix_pow, 9);
}

/// Appends the `width` low-order bytes of `x`, least significant first.
pub fn put_uint(out: &mut Vec<u8>, x: u64, width: usize)
    ensures
        final(out)@ == old(out)@ + le_bytes(x as nat, width as nat),
{
    let mut rest: u64 = x;
    let mut i: usize = 0;
    while i < width
        invariant
            i <= width,
            out@ + le_bytes(rest as nat, (width - i) as nat) == old(out)@ + le_bytes(
                x as nat,
                width as nat,
            ),
        decreases width - i,
    {
        let ghost before = out@;
        out.push((rest % 256) as u8);
        proof {
            assert(before + le_bytes(rest as nat, (width - i) as nat) =~= before.push(
                (rest % 256) as u8,
            ) + le_bytes((rest / 256) as nat, (width - i - 1) as nat));
        }
        rest = rest / 256;
        i = i + 1;
    }
    proof {
        assert(out@ + le_bytes(rest as nat, 0) =~= out@);
    }
}

/// Reads the number spelt by the `width` bytes of `bytes` that start at `pos`.
pub fn get_uint(bytes: &[u8], pos: usize, width: usize) -> (x: u64)
    requires
        width <= 8,
        pos + width <= bytes@.len(),
    ensures
        x as nat == le_value(bytes@.subrange(pos as int, pos + width)),
{
    let ghost field = bytes@.subrange(pos as int, pos + width);
    let n: usize = bytes.len();
    let mut x: u64 = 0;
    let mut i: usize = width;
    proof {
        assert(field.skip(width as int) =~= Seq::<u8>::empty());
        lemma_le_bytes_of_value(field);
        lemma_radix_pow_values();
    }
    while i > 0
        invariant
            i <= width <= 8,
            n == bytes@.len(),
            pos + width <= n,
            field == bytes@.subrange(pos as int, pos + width),
            x as nat == le_value(field.skip(i as int)),
            le_value(field.skip(i as int)) < radix_pow((width - i) as nat),
        decreases i,
    {
        i = i - 1;
        let b: u8 = bytes[pos + i];
        proof {
            let tail = field.skip(i as int);
            assert(tail.skip(1) =~= field.skip(i + 1));
            assert(tail[0] == b);
            lemma_le_bytes_of_value(tail);
            lemma_radix_pow_bound((width - i) as nat);
        }
        x = x * 256 + b as u64;
    }
    proof {
        assert(field.skip(0) =~= field);
    }
    x
}

/// Splits `s` into a framed byte string at its front and what follows it, if
/// `s` starts with a length prefix that the rest can honour.
pub open spec fn split_framed(s: Seq<u8>) -> Option<(Seq<u8>, Seq<u8>)> {
    if s.len() < LEN_WIDTH {
        None
    } else {
        let n = le_value(s.take(LEN_WIDTH as int));
        if n > s.len() - LEN_WIDTH {
            None
        } else {
            Some((s.subrange(LEN_WIDTH as int, LEN_WIDTH + n), s.skip(LEN_WIDTH + n)))
        }
    }
}

/// Splits `s` into an optional byte string at its front and what follows it.
pub open spec fn split_optional(s: Seq<u8>) -> Option<(Option<Seq<u8>>, Seq<u8>)> {
    if s.len() < 1 {
        None
    } else if s[0] == 0 {
        Some((None, s.skip(1)))
    } else if s[0] == 1 {
        match split_framed(s.skip(1)) {
            Some((b, rest)) => Some((Some(b), rest)),
            None => None,
        }
    } else {
        None
    }
}

/// A framed byte string is split off again from whatever follows it.
pub proof fn lemma_split_framed_of_framed(b: Seq<u8>, rest: Seq<u8>)
    requires
        frameable(b),
    ensures
        split_framed(framed(b) + rest) == Some((b, rest)),
{
    let s = framed(b) + rest;
    let prefix = le_bytes(b.len(), LEN_WIDTH as nat);
    lemma_le_bytes_len(b.len(), LEN_WIDTH as nat);
    lemma_radix_pow_values();
    lemma_le_value_of_bytes(b.len(), LEN_WIDTH as nat);
    assert(s.take(LEN_WIDTH as int) =~= prefix);
    assert(s.subrange(LEN_WIDTH as int, LEN_WIDTH + b.len()) =~= b);
    assert(s.skip(LEN_WIDTH + b.len()) =~= rest);
}

/// What was split off is a framed byte string, and nothing else was there.
pub proof fn lemma_framed_of_split_framed(s: Seq<u8>)
    requires
        split_framed(s) is Some,
    ensures
        frameable(split_framed(s).unwrap().0),
        s == framed(split_framed(s).unwrap().0) + split_framed(s).unwrap().1,
{
    let (b, rest) = split_framed(s).unwrap();
    let prefix = s.take(LEN_WIDTH as int);
    lemma_le_bytes_of_value(prefix);
    lemma_radix_pow_values();
    assert(s =~= framed(b) + rest);
}

/// An optional byte string is split off again from whatever follows it.
pub proof fn lemma_split_optional_of_optional(o: Option<Seq<u8>>, rest: Seq<u8>)
    requires
        o matches Some(b) ==> frameable(b),
    ensures
        split_optional(optional(o) + rest) == Some((o, rest)),
{
    let s = optional(o) + rest;
    match o {
        None => {
            assert(s.skip(1) =~= rest);
        },
        Some(b) => {
            assert(s[0] == 1);
            assert(s.skip(1) =~= framed(b) + rest);
            lemma_split_framed_of_framed(b, rest);
        },
    }
}

/// What was split off is an optional byte string, and nothing else was there.
pub proof fn lemma_optional_of_split_optional(s: Seq<u8>)
    requires
        split_optional(s) is Some,
    ensures
        split_optional(s).unwrap().0 matches Some(b) ==> frameable(b),
        s == optional(split_optional(s).unwrap().0) + split_optional(s).unwrap().1,
{
    let (o, rest) = split_optional(s).unwrap();
    match o {
        None => {
            assert(s =~= optional(o) + rest);
        },
        Some(b) => {
            lemma_framed_of_split_framed(s.skip(1));
            assert(s =~= seq![1u8] + s.skip(1));
            assert(s =~= optional(o) + rest);
        },
    }
}

/// Appends the bytes of `b`.
pub fn put_bytes(out: &mut Vec<u8>, b: &[u8])
    ensures
        final(out)@ == old(out)@ + b@,
{
    let n: usize = b.len();
    let mut i: usize = 0;
    while i < n
        invariant
            i <= n,
            n == b@.len(),
            out@ == old(out)@ + b@.take(i as int),
        decreases n - i,
    {
        out.push(b[i]);
        proof {
            assert(b@.take(i + 1) =~= b@.take(i as int).push(b@[i as int]));
        }
        i = i + 1;
    }
    proof {
        assert(b@.take(n as int) =~= b@);
    }
}

/// Appends `b` behind its length.
pub fn put_framed(out: &mut Vec<u8>, b: &[u8])
    ensures
        final(out)@ == old(out)@ + framed(b@),
{
    put_uint(out, b.len() as u64, LEN_WIDTH);
    put_bytes(out, b);
    proof {
        assert(out@ =~= old(out)@ + framed(b@));
    }
}

/// The bytes of `bytes` from `from` up to `to`, as a vector of their own.
pub fn copy_range(bytes: &[u8], from: usize, to: usize) -> (v: Vec<u8>)
    requires
        from <= to <= bytes@.len(),
    ensures
        v@ == bytes@.subrange(from as int, to as int),
{
    let mut v: Vec<u8> = Vec::new();
    let mut i: usize = from;
    while i < to
        invariant
            from <= i <= to <= bytes@.len(),
            v@ == bytes@.subrange(from as int, i as int),
        decreases to - i,
    {
        v.push(bytes[i]);
        i = i + 1;
        proof {
            assert(v@ =~= bytes@.subrange(from as int, i as int));
        }
    }
    v
}

/// Reads the framed byte string that starts at `pos`; gives its bytes and the
/// position behind it.
pub fn read_framed(bytes: &[u8], pos: usize) -> (r: Option<(Vec<u8>, usize)>)
    requires
        pos <= bytes@.len(),
    ensures
        match r {
            Some((v, next)) => pos <= next <= bytes@.len() && split_framed(bytes@.skip(pos as int))
                == Some((v@, bytes@.skip(next as int))),
            None => split_framed(bytes@.skip(pos as int)) is None,
        },
{
    let len: usize = bytes.len();
    let ghost s = bytes@.skip(pos as int);
    if len - pos < LEN_WIDTH {
        return None;
    }
    let n: u64 = get_uint(bytes, pos, LEN_WIDTH);
    proof {
        assert(bytes@.subrange(pos as int, pos + LEN_WIDTH) =~= s.take(LEN_WIDTH as int));
    }
    let room: usize = len - pos - LEN_WIDTH;
    if n > room as u64 {
        return None;
    }
    let start: usize = pos + LEN_WIDTH;
    let next: usize = start + n as usize;
    let v = copy_range(bytes, start, next);
    proof {
        assert(v@ =~= s.subrange(LEN_WIDTH as int, LEN_WIDTH + n));
        assert(bytes@.skip(next as int) =~= s.skip(LEN_WIDTH + n));
    }
    Some((v, next))
}

/// Reads the optional byte string that starts at `pos`; gives it and the
/// position behind it.
pub fn read_optional(bytes: &[u8], pos: usize) -> (r: Option<(Option<Vec<u8>>, usize)>)
    requires
        pos <= bytes@.len(),
    ensures
        match r {
            Some((o, next)) => pos <= next <= bytes@.len() && split_optional(
                bytes@.skip(pos as int),
            ) == Some((optional_view(o), bytes@.skip(next as int))),
            None => split_optional(bytes@.skip(pos as int)) is None,
        },
{
    let len: usize = bytes.len();
    let ghost s = bytes@.skip(pos as int);
    if pos >= len {
        return None;
    }
    let tag: u8 = bytes[pos];
    proof {
        assert(s[0] == tag);
        assert(s.skip(1) =~= bytes@.skip(pos + 1));
    }
    if tag == 0 {
        Some((None, pos + 1))
    } else if tag == 1 {
        match read_framed(bytes, pos + 1) {
            Some((v, next)) => Some((Some(v), next)),
            None => None,
        }
    } else {
        None
    }
}

/// The contents of an optional vector.
pub open spec fn optional_view(o: Option<Vec<u8>>) -> Option<Seq<u8>> {
    match o {
        Some(v) => Some(v@),
        None => None,
    }
}

} // verus!
