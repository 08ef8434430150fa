//! Canonical textual pieces used by the map rendering: decimal text of a
//! signed 32-bit key, and the quoted form of a UTF-8 text value. The quoted
//! form keeps printable ASCII and all non-ASCII bytes as they are, uses the
//! short escapes `\"`, `\\`, `\n`, `\r`, `\t`, `\0`, and writes any other
//! control byte as `\u{h}`/`\u{hh}` with lowercase hex digits.

use vstd::prelude::*;
use crate::render::hex_digit;
use crate::render::spec_hex_digit;
use crate::wire::nul_free;

verus! {

/// The ASCII digit for a value below ten.
pub open spec fn spec_digit(n: int) -> u8 {
    (0x30 + n) as u8
}

/// The decimal digits of a non-negative number, most significant first.
pub open spec fn spec_udigits(n: int) -> Seq<u8>
    decreases n,
{
    if n < 10 {
        seq![spec_digit(n)]
    } else {
        spec_udigits(n / 10) + seq![spec_digit(n % 10)]
    }
}

/// The decimal text of a signed number: a minus sign for a negative one,
/// then the digits of its magnitude.
pub open spec fn spec_int_text(n: int) -> Seq<u8> {
    if n < 0 {
        seq![0x2du8] + spec_udigits(-n)
    } else {
        spec_udigits(n)
    }
}

fn push_udigits(out: &mut Vec<u8>, n: u64)
    ensures
        final(out)@ == old(out)@ + spec_udigits(n as int),
    decreases n,
{
    if n < 10 {
        out.push(0x30 + (n as u8));
        proof {
            assert(out@ =~= old(out)@ + spec_udigits(n as int));
        }
    } else {
        push_udigits(out, n / 10);
        out.push(0x30 + ((n % 10) as u8));
        proof {
            assert(out@ =~= old(out)@ + spec_udigits(n as int));
        }
    }
}

/// Appends the decimal text of a key.
pub fn push_int_text(out: &mut Vec<u8>, k: i32)
    ensures
        final(out)@ == old(out)@ + spec_int_text(k as int),
{
    if k < 0 {
        out.push(0x2d);
        let m: u64 = (-(k as i64)) as u64;
        push_udigits(out, m);
        proof {
            assert(out@ =~= old(out)@ + spec_int_text(k as int));
        }
    } else {
        push_udigits(out, k as u64);
    }
}

/// Every byte of a decimal text is a digit or the minus sign; none is zero.
pub proof fn lemma_udigits_nul_free(n: int)
    requires
        n >= 0,
    ensures
        nul_free(spec_udigits(n)),
    decreases n,
{
    if n >= 10 {
        lemma_udigits_nul_free(n / 10);
    }
}

pub proof fn lemma_int_text_nul_free(n: int)
    ensures
        nul_free(spec_int_text(n)),
{
    if n < 0 {
        lemma_udigits_nul_free(-n);
    } else {
        lemma_udigits_nul_free(n);
    }
}

/// The hex text of a value below 256, without leading zeros.
pub open spec fn spec_hex_short(n: int) -> Seq<u8> {
    if n < 16 {
        seq![spec_hex_digit(n)]
    } else {
        seq![spec_hex_digit(n / 16), spec_hex_digit(n % 16)]
    }
}

/// The rendering of one byte of a UTF-8 text inside a quoted value.
pub open spec fn spec_escape_text_byte(b: u8) -> Seq<u8> {
    if b == 0x22u8 {
        seq![0x5cu8, 0x22u8]
    } else if b == 0x5cu8 {
        seq![0x5cu8, 0x5cu8]
    } else if b == 0x0au8 {
        seq![0x5cu8, 0x6eu8]
    } else if b == 0x0du8 {
        seq![0x5cu8, 0x72u8]
    } else if b == 0x09u8 {
        seq![0x5cu8, 0x74u8]
    } else if b == 0x00u8 {
        seq![0x5cu8, 0x30u8]
    } else if b < 0x20u8 || b == 0x7fu8 {
        seq![0x5cu8, 0x75u8, 0x7bu8] + spec_hex_short(b as int) + seq![0x7du8]
    } else {
        seq![b]
    }
}

/// The renderings of all bytes of a text value, in order.
pub open spec fn spec_escape_text(s: Seq<u8>) -> Seq<u8>
    decreases s.len(),
{
    if s.len() == 0 {
        Seq::empty()
    } else {
        spec_escape_text_byte(s[0]) + spec_escape_text(s.drop_first())
    }
}

/// The quoted form of a text value.
pub open spec fn spec_quoted(s: Seq<u8>) -> Seq<u8> {
    seq![0x22u8] + spec_escape_text(s) + seq![0x22u8]
}

pub proof fn lemma_escape_text_push(s: Seq<u8>, b: u8)
    ensures
        spec_escape_text(s.push(b)) == spec_escape_text(s) + spec_escape_text_byte(b),
    decreases s.len(),
{
    assert(s.push(b)[0] == if s.len() == 0 { b } else { s[0] });
    if s.len() == 0 {
        let t = s.push(b);
        assert(t.drop_first() =~= Seq::<u8>::empty());
        assert(spec_escape_text(t.drop_first()) =~= Seq::<u8>::empty());
        assert(spec_escape_text(t) == spec_escape_text_byte(b) + spec_escape_text(t.drop_first()));
        assert(spec_escape_text(s) =~= Seq::<u8>::empty());
        assert(spec_escape_text(s.push(b)) =~= spec_escape_text(s) + spec_escape_text_byte(b));
    } else {
        assert(s.push(b).drop_first() =~= s.drop_first().push(b));
        lemma_escape_text_push(s.drop_first(), b);
        assert(spec_escape_text(s.push(b)) =~= spec_escape_text(s) + spec_escape_text_byte(b));
    }
}

fn push_escape_text_byte(out: &mut Vec<u8>, b: u8)
    ensures
        final(out)@ == old(out)@ + spec_escape_text_byte(b),
{
    if b == 0x22u8 {
        out.push(0x5c);
        out.push(0x22);
        proof { assert(out@ =~= old(out)@ + spec_escape_text_byte(b)); }
    } else if b == 0x5cu8 {
        out.push(0x5c);
        out.push(0x5c);
        proof { assert(out@ =~= old(out)@ + spec_escape_text_byte(b)); }
    } else if b == 0x0au8 {
        out.push(0x5c);
        out.push(0x6e);
        proof { assert(out@ =~= old(out)@ + spec_escape_text_byte(b)); }
    } else if b == 0x0du8 {
        out.push(0x5c);
        out.push(0x72);
        proof { assert(out@ =~= old(out)@ + spec_escape_text_byte(b)); }
    } else if b == 0x09u8 {
        out.push(0x5c);
        out.push(0x74);
        proof { assert(out@ =~= old(out)@ + spec_escape_text_byte(b)); }
    } else if b == 0x00u8 {
        out.push(0x5c);
        out.push(0x30);
        proof { assert(out@ =~= old(out)@ + spec_escape_text_byte(b)); }
    } else if b < 0x20u8 || b == 0x7fu8 {
        out.push(0x5c);
        out.push(0x75);
        out.push(0x7b);
        if b < 16 {
            out.push(hex_digit(b));
        } else {
            out.push(hex_digit(b / 16));
            out.push(hex_digit(b % 16));
        }
        out.push(0x7d);
        proof { assert(out@ =~= old(out)@ + spec_escape_text_byte(b)); }
    } else {
        out.push(b);
        proof { assert(out@ =~= old(out)@ + spec_escape_text_byte(b)); }
    }
}

/// Appends the quoted form of a text value.
pub fn push_quoted_text(out: &mut Vec<u8>, v: &Vec<u8>)
    ensures
        final(out)@ == old(out)@ + spec_quoted(v@),
{
    let ghost start = out@;
    out.push(0x22);
    let n: usize = v.len();
    let mut i: usize = 0;
    while i < n
        invariant
            n == v@.len(),
            i <= n,
            out@ == start + seq![0x22u8] + spec_escape_text(v@.take(i as int)),
        decreases n - i,
    {
        push_escape_text_byte(out, v[i]);
        proof {
            assert(v@.take(i + 1) =~= v@.take(i as int).push(v@[i as int]));
            lemma_escape_text_push(v@.take(i as int), v@[i as int]);
        }
        i = i + 1;
    }
    out.push(0x22);
    proof {
        assert(v@.take(n as int) =~= v@);
        assert(out@ =~= start + spec_quoted(v@));
    }
}

pub proof fn lemma_escape_text_byte_nul_free(b: u8)
    ensures
        nul_free(spec_escape_text_byte(b)),
{
}

/// No byte of an escaped text value is the terminator.
pub proof fn lemma_escape_text_nul_free(s: Seq<u8>)
    ensures
        nul_free(spec_escape_text(s)),
    decreases s.len(),
{
    if s.len() == 0 {
    } else {
        lemma_escape_text_byte_nul_free(s[0]);
        lemma_escape_text_nul_free(s.drop_first());
    }
}

pub proof fn lemma_quoted_nul_free(s: Seq<u8>)
    ensures
        nul_free(spec_quoted(s)),
{
    lemma_escape_text_nul_free(s);
}

} // verus!
