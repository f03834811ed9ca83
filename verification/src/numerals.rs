//! Rendering of unsigned numbers as ASCII numerals: lowercase hexadecimal
//! (used for the offset column and the hex byte cells) and decimal (used for
//! the header's column indices and for error messages).
use vstd::prelude::*;

verus! {

/// The ASCII code of the lowercase hexadecimal digit for a value below 16.
pub open spec fn hex_digit(d: int) -> u8 {
    if d < 10 {
        (0x30 + d) as u8
    } else {
        (0x61 + (d - 10)) as u8
    }
}

/// The ASCII code of the decimal digit for a value below 10.
pub open spec fn dec_digit(d: int) -> u8 {
    (0x30 + d) as u8
}

/// The lowercase hexadecimal numeral of `n`, most significant digit first,
/// without leading zeros (the numeral of zero is "0").
pub open spec fn hex_numeral(n: int) -> Seq<u8>
    decreases n,
{
    if n < 16 {
        seq![hex_digit(if n < 0 { 0 } else { n })]
    } else {
        hex_numeral(n / 16) + seq![hex_digit(n % 16)]
    }
}

/// The decimal numeral of `n`, most significant digit first, without leading
/// zeros (the numeral of zero is "0").
pub open spec fn dec_numeral(n: int) -> Seq<u8>
    decreases n,
{
    if n < 10 {
        seq![dec_digit(if n < 0 { 0 } else { n })]
    } else {
        dec_numeral(n / 10) + seq![dec_digit(n % 10)]
    }
}

/// `s` left-padded with ASCII zeros to at least eight characters.
pub open spec fn zero_pad8(s: Seq<u8>) -> Seq<u8> {
    if s.len() >= 8 {
        s
    } else {
        Seq::new((8 - s.len()) as nat, |i: int| 0x30u8) + s
    }
}

/// The lowercase hexadecimal digit character for a value below 16.
pub fn hex_digit_char(d: u8) -> (r: u8)
    requires
        d < 16,
    ensures
        r == hex_digit(d as int),
{
    if d < 10 {
        0x30 + d
    } else {
        0x61 + (d - 10)
    }
}

/// The lowercase hexadecimal numeral of `n`, most significant digit first.
pub fn u64_hex_numeral(n: u64) -> (r: Vec<u8>)
    ensures
        r@ == hex_numeral(n as int),
    decreases n,
{
    if n < 16 {
        let mut v: Vec<u8> = Vec::new();
        v.push(hex_digit_char(n as u8));
        proof {
            assert(v@ =~= hex_numeral(n as int));
        }
        v
    } else {
        let mut v = u64_hex_numeral(n / 16);
        v.push(hex_digit_char((n % 16) as u8));
        proof {
            assert(v@ =~= hex_numeral(n as int));
        }
        v
    }
}

/// The decimal numeral of `n`, most significant digit first.
pub fn u64_dec_numeral(n: u64) -> (r: Vec<u8>)
    ensures
        r@ == dec_numeral(n as int),
    decreases n,
{
    if n < 10 {
        let mut v: Vec<u8> = Vec::new();
        v.push(0x30 + n as u8);
        proof {
            assert(v@ =~= dec_numeral(n as int));
        }
        v
    } else {
        let mut v = u64_dec_numeral(n / 10);
        v.push(0x30 + (n % 10) as u8);
        proof {
            assert(v@ =~= dec_numeral(n as int));
        }
        v
    }
}

/// The lowercase hexadecimal numeral of `n`, zero-padded to at least eight
/// digits.
pub fn u64_hex_padded8(n: u64) -> (r: Vec<u8>)
    ensures
        r@ == zero_pad8(hex_numeral(n as int)),
{
    let mut digits = u64_hex_numeral(n);
    let mut v: Vec<u8> = Vec::new();
    let dlen = digits.len();
    if dlen < 8 {
        let pad = 8 - dlen;
        let mut i: usize = 0;
        while i < pad
            invariant
                i <= pad,
                pad == 8 - dlen,
                v@ =~= Seq::new(i as nat, |k: int| 0x30u8),
            decreases pad - i,
        {
            v.push(0x30);
            i += 1;
            proof {
                assert(v@ =~= Seq::new(i as nat, |k: int| 0x30u8));
            }
        }
    }
    v.append(&mut digits);
    proof {
        assert(v@ =~= zero_pad8(hex_numeral(n as int)));
    }
    v
}

} // verus!
