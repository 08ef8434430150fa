//! Canonical textual rendering of a byte buffer, as a byte-string literal:
//! `b"..."` with printable ASCII kept as is, the short escapes `\n`, `\r`,
//! `\t`, `\\`, `\"`, `\0`, and `\xhh` (two lowercase hex digits) for every
//! other byte. All output bytes are ASCII and none is zero, so the rendering
//! always has a wire form.

use vstd::prelude::*;
use crate::wire::nul_free;

verus! {

/// The lowercase hex digit for a value below sixteen.
pub open spec fn spec_hex_digit(n: int) -> u8 {
    if n < 10 {
        (0x30 + n) as u8
    } else {
        (0x57 + n) as u8
    }
}

/// The rendering of one byte inside a byte-string literal.
pub open spec fn spec_escape_byte(b: u8) -> Seq<u8> {
    if b == 0x0au8 {
        seq![0x5cu8, 0x6eu8]
    } else if b == 0x0du8 {
        seq![0x5cu8, 0x72u8]
    } else if b == 0x09u8 {
        seq![0x5cu8, 0x74u8]
    } else if b == 0x5cu8 {
        seq![0x5cu8, 0x5cu8]
    } else if b == 0x22u8 {
        seq![0x5cu8, 0x22u8]
    } else if b == 0x00u8 {
        seq![0x5cu8, 0x30u8]
    } else if 0x20u8 <= b && b < 0x7fu8 {
        seq![b]
    } else {
        seq![0x5cu8, 0x78u8, spec_hex_digit(b as int / 16), spec_hex_digit(b as int % 16)]
    }
}

/// The renderings of all bytes of a buffer, in order.
pub open spec fn spec_escape_bytes(data: Seq<u8>) -> Seq<u8>
    decreases data.len(),
{
    if data.len() == 0 {
        Seq::empty()
    } else {
        spec_escape_byte(data[0]) + spec_escape_bytes(data.drop_first())
    }
}

/// The full rendering of a byte buffer: `b"` then the escaped bytes then `"`.
pub open spec fn spec_render_bytes(data: Seq<u8>) -> Seq<u8> {
    seq![0x62u8, 0x22u8] + spec_escape_bytes(data) + seq![0x22u8]
}

pub proof fn lemma_escape_bytes_push(data: Seq<u8>, b: u8)
    ensures
        spec_escape_bytes(data.push(b)) == spec_escape_bytes(data) + spec_escape_byte(b),
    decreases data.len(),
{
    assert(data.push(b)[0] == if data.len() == 0 { b } else { data[0] });
    if data.len() == 0 {
        let s = data.push(b);
        assert(s.drop_first() =~= Seq::<u8>::empty());
        assert(spec_escape_bytes(s.drop_first()) =~= Seq::<u8>::empty());
        assert(spec_escape_bytes(s) == spec_escape_byte(b) + spec_escape_bytes(s.drop_first()));
        assert(spec_escape_bytes(data) =~= Seq::<u8>::empty());
        assert(spec_escape_bytes(data.push(b)) =~= spec_escape_bytes(data) + spec_escape_byte(b));
    } else {
        assert(data.push(b).drop_first() =~= data.drop_first().push(b));
        lemma_escape_bytes_push(data.drop_first(), b);
        assert(spec_escape_bytes(data.push(b)) =~= spec_escape_bytes(data) + spec_escape_byte(b));
    }
}

pub(crate) fn hex_digit(n: u8) -> (r: u8)
    requires
        n < 16,
    ensures
        r == spec_hex_digit(n as int),
{
    if n < 10 {
        0x30 + n
    } else {
        0x57 + n
    }
}

fn push_escape_byte(out: &mut Vec<u8>, b: u8)
    ensures
        final(out)@ == old(out)@ + spec_escape_byte(b),
{
    if b == 0x0au8 {
        out.push(0x5c);
        out.push(0x6e);
        proof { assert(out@ =~= old(out)@ + spec_escape_byte(b)); }
    } else if b == 0x0du8 {
        out.push(0x5c);
        out.push(0x72);
        proof { assert(out@ =~= old(out)@ + spec_escape_byte(b)); }
    } else if b == 0x09u8 {
        out.push(0x5c);
        out.push(0x74);
        proof { assert(out@ =~= old(out)@ + spec_escape_byte(b)); }
    } else if b == 0x5cu8 {
        out.push(0x5c);
        out.push(0x5c);
        proof { assert(out@ =~= old(out)@ + spec_escape_byte(b)); }
    } else if b == 0x22u8 {
        out.push(0x5c);
        out.push(0x22);
        proof { assert(out@ =~= old(out)@ + spec_escape_byte(b)); }
    } else if b == 0x00u8 {
        out.push(0x5c);
        out.push(0x30);
        proof { assert(out@ =~= old(out)@ + spec_escape_byte(b)); }
    } else if 0x20u8 <= b && b < 0x7fu8 {
        out.push(b);
        proof { assert(out@ =~= old(out)@ + spec_escape_byte(b)); }
    } else {
        out.push(0x5c);
        out.push(0x78);
        out.push(hex_digit(b / 16));
        out.push(hex_digit(b % 16));
        proof { assert(out@ =~= old(out)@ + spec_escape_byte(b)); }
    }
}

/// Renders a byte buffer to its canonical textual form.
pub fn render_bytes(data: &Vec<u8>) -> (out: Vec<u8>)
    ensures
        out@ == spec_render_bytes(data@),
{
    let mut out: Vec<u8> = Vec::new();
    out.push(0x62);
    out.push(0x22);
    proof {
        assert(out@ =~= seq![0x62u8, 0x22u8] + spec_escape_bytes(data@.take(0)));
    }
    let n: usize = data.len();
    let mut i: usize = 0;
    while i < n
        invariant
            n == data@.len(),
            i <= n,
            out@ == seq![0x62u8, 0x22u8] + spec_escape_bytes(data@.take(i as int)),
        decreases n - i,
    {
        push_escape_byte(&mut out, data[i]);
        proof {
            assert(data@.take(i + 1) =~= data@.take(i as int).push(data@[i as int]));
            lemma_escape_bytes_push(data@.take(i as int), data@[i as int]);
        }
        i = i + 1;
    }
    out.push(0x22);
    proof {
        assert(data@.take(n as int) =~= data@);
        assert(out@ =~= spec_render_bytes(data@));
    }
    out
}

/// No byte of a one-byte rendering is the terminator.
pub proof fn lemma_escape_byte_nul_free(b: u8)
    ensures
        nul_free(spec_escape_byte(b)),
{
}

/// No byte of an escaped buffer is the terminator.
pub proof fn lemma_escape_bytes_nul_free(data: Seq<u8>)
    ensures
        nul_free(spec_escape_bytes(data)),
    decreases data.len(),
{
    if data.len() == 0 {
    } else {
        lemma_escape_byte_nul_free(data[0]);
        lemma_escape_bytes_nul_free(data.drop_first());
    }
}

/// A rendered byte buffer never holds the terminator, so it always has a
/// wire form.
pub proof fn lemma_render_bytes_nul_free(data: Seq<u8>)
    ensures
        nul_free(spec_render_bytes(data)),
{
    lemma_escape_bytes_nul_free(data);
}

} // verus!
