//! Bytes written as base64 text.
use base64::Engine;
use vstd::prelude::*;
use vstd::string::*;

use crate::text::{decimal, decimal_string};

verus! {

/// The symbol for six bits.
pub open spec fn symbol(v: int) -> char {
    if v < 26 {
        (65 + v) as char
    } else if v < 52 {
        (97 + (v - 26)) as char
    } else if v < 62 {
        (48 + (v - 52)) as char
    } else if v == 62 {
        '+'
    } else {
        '/'
    }
}

/// Bytes in base64: four symbols for three bytes, the last group filled up with
/// `=`.
pub open spec fn base64_text(b: Seq<u8>) -> Seq<char>
    decreases b.len(),
{
    if b.len() == 0 {
        seq![]
    } else if b.len() == 1 {
        seq![symbol(b[0] as int / 4), symbol(b[0] as int % 4 * 16), '=', '=']
    } else if b.len() == 2 {
        seq![
            symbol(b[0] as int / 4),
            symbol(b[0] as int % 4 * 16 + b[1] as int / 16),
            symbol(b[1] as int % 16 * 4),
            '=',
        ]
    } else {
        seq![
            symbol(b[0] as int / 4),
            symbol(b[0] as int % 4 * 16 + b[1] as int / 16),
            symbol(b[1] as int % 16 * 4 + b[2] as int / 64),
            symbol(b[2] as int % 64),
        ] + base64_text(b.skip(3))
    }
}

/// Why a text is no base64.
#[derive(Clone, Copy, PartialEq, Eq, Structural, Debug)]
pub enum Base64Error {
    /// A byte that no symbol has, or padding out of place.
    InvalidByte(usize, u8),
    InvalidLength(usize),
    /// The last symbol holds bits that no byte takes.
    InvalidLastSymbol(usize, u8),
    InvalidPadding,
}

/// What `STANDARD.decode` finds wrong with a text that is no base64.
pub uninterp spec fn base64_fault(text: Seq<char>) -> Base64Error;

/// `base64::engine::general_purpose::STANDARD.decode`: succeeds on exactly the
/// texts that are the padded encoding of some bytes, with no other character and
/// no bit left over, and gives those bytes. Which fault it reports otherwise
/// depends on the text alone.
#[verifier::external_body]
pub(crate) fn decode_base64(text: &str) -> (r: Result<Vec<u8>, Base64Error>)
    ensures
        match r {
            Ok(b) => text@ == base64_text(b@),
            Err(e) => e == base64_fault(text@) && forall|b: Seq<u8>|
                text@ != #[trigger] base64_text(b),
        },
{
    base64::engine::general_purpose::STANDARD.decode(text).map_err(
        |e| match e {
            base64::DecodeError::InvalidByte(at, b) => Base64Error::InvalidByte(at, b),
            base64::DecodeError::InvalidLength(n) => Base64Error::InvalidLength(n),
            base64::DecodeError::InvalidLastSymbol(at, b) => Base64Error::InvalidLastSymbol(at, b),
            base64::DecodeError::InvalidPadding => Base64Error::InvalidPadding,
        },
    )
}

/// Different six bits have different symbols, and none of them is `=`.
proof fn lemma_symbol(a: int, b: int)
    requires
        0 <= a < 64,
        0 <= b < 64,
        symbol(a) == symbol(b),
    ensures
        a == b,
{
}

/// No symbol is `=`.
proof fn lemma_no_padding(a: int)
    requires
        0 <= a < 64,
    ensures
        symbol(a) != '=',
{
}

/// No two byte strings have the same base64 text, so that decoding gives back
/// what was encoded.
pub proof fn law_base64_is_unambiguous(a: Seq<u8>, b: Seq<u8>)
    requires
        base64_text(a) == base64_text(b),
    ensures
        a == b,
    decreases a.len(),
{
    let s = base64_text(a);
    let t = base64_text(b);
    assert(a.len() > 0 ==> s.len() >= 4);
    assert(b.len() > 0 ==> t.len() >= 4);
    if a.len() == 0 || b.len() == 0 {
        assert(a =~= b);
    } else {
        assert(s[0] == t[0] && s[1] == t[1] && s[2] == t[2] && s[3] == t[3]);
        lemma_symbol(a[0] as int / 4, b[0] as int / 4);
        if a.len() >= 2 {
            lemma_no_padding(a[1] as int % 16 * 4 + if a.len() >= 3 {
                a[2] as int / 64
            } else {
                0
            });
        }
        if b.len() >= 2 {
            lemma_no_padding(b[1] as int % 16 * 4 + if b.len() >= 3 {
                b[2] as int / 64
            } else {
                0
            });
        }
        if a.len() >= 3 {
            lemma_no_padding(a[2] as int % 64);
        }
        if b.len() >= 3 {
            lemma_no_padding(b[2] as int % 64);
        }
        if a.len() == 1 {
            assert(b.len() == 1);
            lemma_symbol(a[0] as int % 4 * 16, b[0] as int % 4 * 16);
            assert(a =~= b);
        } else if a.len() == 2 {
            assert(b.len() == 2);
            lemma_symbol(
                a[0] as int % 4 * 16 + a[1] as int / 16,
                b[0] as int % 4 * 16 + b[1] as int / 16,
            );
            lemma_symbol(a[1] as int % 16 * 4, b[1] as int % 16 * 4);
            assert(a =~= b);
        } else {
            assert(b.len() >= 3);
            lemma_symbol(
                a[0] as int % 4 * 16 + a[1] as int / 16,
                b[0] as int % 4 * 16 + b[1] as int / 16,
            );
            lemma_symbol(
                a[1] as int % 16 * 4 + a[2] as int / 64,
                b[1] as int % 16 * 4 + b[2] as int / 64,
            );
            lemma_symbol(a[2] as int % 64, b[2] as int % 64);
            assert(s.skip(4) =~= base64_text(a.skip(3)));
            assert(t.skip(4) =~= base64_text(b.skip(3)));
            law_base64_is_unambiguous(a.skip(3), b.skip(3));
            assert(a =~= seq![a[0], a[1], a[2]] + a.skip(3));
            assert(b =~= seq![b[0], b[1], b[2]] + b.skip(3));
        }
    }
}

/// A fault in words.
pub open spec fn base64_message(e: Base64Error) -> Seq<char> {
    match e {
        Base64Error::InvalidByte(at, b) => "Invalid symbol "@ + decimal(b as nat) + ", offset "@
            + decimal(at as nat) + "."@,
        Base64Error::InvalidLength(n) => "Invalid input length: "@ + decimal(n as nat),
        Base64Error::InvalidLastSymbol(at, b) => "Invalid last symbol "@ + decimal(b as nat)
            + ", offset "@ + decimal(at as nat) + "."@,
        Base64Error::InvalidPadding => "Invalid padding"@,
    }
}

impl Base64Error {
    /// The fault in words.
    pub fn message(&self) -> (r: String)
        ensures
            r@ == base64_message(*self),
    {
        match self {
            Base64Error::InvalidByte(at, b) => {
                let mut s = String::from_str("Invalid symbol ");
                s.append(decimal_string(*b as u64).as_str());
                s.append(", offset ");
                s.append(decimal_string(*at as u64).as_str());
                s.append(".");
                s
            },
            Base64Error::InvalidLength(n) => {
                let mut s = String::from_str("Invalid input length: ");
                s.append(decimal_string(*n as u64).as_str());
                s
            },
            Base64Error::InvalidLastSymbol(at, b) => {
                let mut s = String::from_str("Invalid last symbol ");
                s.append(decimal_string(*b as u64).as_str());
                s.append(", offset ");
                s.append(decimal_string(*at as u64).as_str());
                s.append(".");
                s
            },
            Base64Error::InvalidPadding => String::from_str("Invalid padding"),
        }
    }
}

} // verus!
