//! The human-readable form of a challenge, for diagnostics: difficulty, time
//! of issuance, deadline, randomness and counter, separated by colons. The
//! two byte strings are written in base64.

use vstd::prelude::*;
use vstd::string::StringExecFns;
use crate::challenge::H;
use crate::encoding::Challenge;

verus! {

/// The longest input whose base64 text, with the terminator that OpenSSL
/// adds, still has a length that fits a C `int`.
pub const BASE64_MAX_INPUT: usize = 1_610_612_733;

/// The base64 text of `data`, as OpenSSL writes it in one block.
pub uninterp spec fn base64_text(data: Seq<u8>) -> Seq<char>;

/// Calls `openssl::base64::encode_block`, which panics on an input whose
/// encoded length overflows a C `int`. The text is a function of `data`
/// alone.
#[verifier::external_body]
fn openssl_base64(data: &[u8]) -> (r: String)
    requires
        data@.len() <= BASE64_MAX_INPUT,
    ensures
        r@ == base64_text(data@),
{
    openssl::base64::encode_block(data)
}

/// The character of a decimal digit.
pub open spec fn digit_char(d: nat) -> char {
    (48 + d) as char
}

/// The decimal digits of `n`, without leading zeros.
pub open spec fn decimal_digits(n: nat) -> Seq<char>
    decreases n,
{
    if n < 10 {
        seq![digit_char(n)]
    } else {
        decimal_digits(n / 10).push(digit_char(n % 10))
    }
}

/// The text of an optional text: empty where there is none.
pub open spec fn text_or_empty(t: Option<Seq<char>>) -> Seq<char> {
    match t {
        Some(chars) => chars,
        None => Seq::empty(),
    }
}

/// The human-readable form of `c`.
pub open spec fn rendering(c: Challenge) -> Seq<char> {
    decimal_digits(c.bits as nat) + seq![':'] + c.issued_at + seq![':'] + text_or_empty(c.deadline)
        + seq![':'] + base64_text(c.randomness) + seq![':'] + base64_text(c.counter)
}

/// The text of one decimal digit.
fn digit_text(d: u8) -> (t: &'static str)
    requires
        d < 10,
    ensures
        t@ == seq![digit_char(d as nat)],
{
    proof {
        reveal_strlit("0");
        reveal_strlit("1");
        reveal_strlit("2");
        reveal_strlit("3");
        reveal_strlit("4");
        reveal_strlit("5");
        reveal_strlit("6");
        reveal_strlit("7");
        reveal_strlit("8");
        reveal_strlit("9");
    }
    let t = match d {
        0 => "0",
        1 => "1",
        2 => "2",
        3 => "3",
        4 => "4",
        5 => "5",
        6 => "6",
        7 => "7",
        8 => "8",
        _ => "9",
    };
    assert(t@ =~= seq![digit_char(d as nat)]);
    t
}

/// The decimal text of `n`.
pub fn decimal(n: u16) -> (s: String)
    ensures
        s@ == decimal_digits(n as nat),
    decreases n,
{
    if n < 10 {
        String::from_str(digit_text(n as u8))
    } else {
        let mut s = decimal(n / 10);
        let last = digit_text((n % 10) as u8);
        s.append(last);
        assert(s@ =~= decimal_digits((n / 10) as nat).push(digit_char((n % 10) as nat)));
        s
    }
}

impl H {
    /// The human-readable form of the challenge; `None` where the counter is
    /// longer than base64 can take in one block.
    pub fn render(&self) -> (r: Option<String>)
        ensures
            r is Some <==> self@.counter.len() <= BASE64_MAX_INPUT,
            r matches Some(text) ==> text@ == rendering(self@),
    {
        if self.counter().len() > BASE64_MAX_INPUT {
            return None;
        }
        proof {
            reveal_strlit(":");
        }
        let mut out = decimal(self.bits());
        out.append(":");
        out.append(self.issued_at().as_str());
        out.append(":");
        match self.deadline() {
            Some(t) => {
                out.append(t.as_str());
            },
            None => {},
        }
        out.append(":");
        let randomness = openssl_base64(self.randomness().as_slice());
        out.append(randomness.as_str());
        out.append(":");
        let counter = openssl_base64(self.counter().as_slice());
        out.append(counter.as_str());
        assert(out@ =~= rendering(self@));
        Some(out)
    }
}

} // verus!
