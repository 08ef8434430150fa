//! Decoding the canonical byte-buffer rendering: the inverse of the
//! `b"..."` form. Decoding any rendering returns exactly the bytes that
//! were rendered (`lemma_decode_of_render`), so the textual form is lossless.

use vstd::prelude::*;
use crate::render::spec_escape_byte;
use crate::render::spec_escape_bytes;
use crate::render::spec_hex_digit;
use crate::render::spec_render_bytes;

verus! {

/// Whether a byte is a lowercase hex digit.
pub open spec fn is_hex_digit(c: u8) -> bool {
    (0x30u8 <= c && c <= 0x39u8) || (0x61u8 <= c && c <= 0x66u8)
}

/// The value of a lowercase hex digit.
pub open spec fn spec_hex_val(c: u8) -> int {
    if c <= 0x39u8 {
        c - 0x30u8
    } else {
        c - 0x57u8
    }
}

pub proof fn lemma_hex_digit_val(n: int)
    requires
        0 <= n < 16,
    ensures
        is_hex_digit(spec_hex_digit(n)),
        spec_hex_val(spec_hex_digit(n)) == n,
{
}

/// A decoded byte put in front of the rest of a decoding, if that succeeded.
pub open spec fn spec_cons(b: u8, r: Option<Seq<u8>>) -> Option<Seq<u8>> {
    match r {
        Some(t) => Some(seq![b] + t),
        None => None,
    }
}

/// The bytes encoded by the text between the quotes, or nothing if the text
/// is not a well-formed escape sequence.
pub open spec fn spec_unescape(s: Seq<u8>) -> Option<Seq<u8>>
    decreases s.len(),
{
    if s.len() == 0 {
        Some(Seq::empty())
    } else if s[0] == 0x5cu8 {
        if s.len() < 2 {
            None
        } else if s[1] == 0x6eu8 {
            spec_cons(0x0au8, spec_unescape(s.skip(2)))
        } else if s[1] == 0x72u8 {
            spec_cons(0x0du8, spec_unescape(s.skip(2)))
        } else if s[1] == 0x74u8 {
            spec_cons(0x09u8, spec_unescape(s.skip(2)))
        } else if s[1] == 0x5cu8 {
            spec_cons(0x5cu8, spec_unescape(s.skip(2)))
        } else if s[1] == 0x22u8 {
            spec_cons(0x22u8, spec_unescape(s.skip(2)))
        } else if s[1] == 0x30u8 {
            spec_cons(0x00u8, spec_unescape(s.skip(2)))
        } else if s[1] == 0x78u8 {
            if s.len() < 4 {
                None
            } else if is_hex_digit(s[2]) && is_hex_digit(s[3]) {
                spec_cons(
                    (spec_hex_val(s[2]) * 16 + spec_hex_val(s[3])) as u8,
                    spec_unescape(s.skip(4)),
                )
            } else {
                None
            }
        } else {
            None
        }
    } else if 0x20u8 <= s[0] && s[0] < 0x7fu8 && s[0] != 0x22u8 {
        spec_cons(s[0], spec_unescape(s.skip(1)))
    } else {
        None
    }
}

/// The bytes encoded by a full rendering: `b"`, the escaped bytes, `"`.
pub open spec fn spec_decode(text: Seq<u8>) -> Option<Seq<u8>> {
    if text.len() >= 3 && text[0] == 0x62u8 && text[1] == 0x22u8 && text[text.len() - 1]
        == 0x22u8 {
        spec_unescape(text.subrange(2, text.len() - 1))
    } else {
        None
    }
}

/// Decoding starts over the rendering of one byte by recovering that byte.
proof fn lemma_unescape_one(b: u8, s: Seq<u8>)
    ensures
        spec_unescape(spec_escape_byte(b) + s) == spec_cons(b, spec_unescape(s)),
{
    let t = spec_escape_byte(b) + s;
    if b == 0x0au8 || b == 0x0du8 || b == 0x09u8 || b == 0x5cu8 || b == 0x22u8 || b == 0x00u8 {
        assert(t.skip(2) =~= s);
    } else if 0x20u8 <= b && b < 0x7fu8 {
        assert(t[0] == b && b != 0x5cu8 && b != 0x22u8);
        assert(t.skip(1) =~= s);
    } else {
        assert(t[0] == 0x5cu8 && t[1] == 0x78u8);
        assert(t[2] == spec_hex_digit(b as int / 16) && t[3] == spec_hex_digit(b as int % 16));
        lemma_hex_digit_val(b as int / 16);
        lemma_hex_digit_val(b as int % 16);
        assert(spec_hex_val(t[2]) * 16 + spec_hex_val(t[3]) == b as int);
        assert(t.skip(4) =~= s);
    }
}

/// Decoding the rendering of a buffer, followed by any tail, recovers the
/// buffer in front of whatever the tail decodes to.
proof fn lemma_unescape_escape(data: Seq<u8>, tail: Seq<u8>)
    ensures
        spec_unescape(spec_escape_bytes(data) + tail) == match spec_unescape(tail) {
            Some(t) => Some(data + t),
            None => None::<Seq<u8>>,
        },
    decreases data.len(),
{
    if data.len() == 0 {
        assert(spec_escape_bytes(data) + tail =~= tail);
        match spec_unescape(tail) {
            Some(t) => {
                assert(data + t =~= t);
            },
            None => {},
        }
    } else {
        lemma_unescape_escape(data.drop_first(), tail);
        assert(spec_escape_bytes(data) + tail =~= spec_escape_byte(data[0]) + (spec_escape_bytes(
            data.drop_first(),
        ) + tail));
        lemma_unescape_one(data[0], spec_escape_bytes(data.drop_first()) + tail);
        match spec_unescape(tail) {
            Some(t) => {
                assert(seq![data[0]] + (data.drop_first() + t) =~= data + t);
            },
            None => {},
        }
    }
}

/// The law of the textual form: decoding any rendering gives back exactly
/// the bytes that were rendered.
pub proof fn lemma_decode_of_render(data: Seq<u8>)
    ensures
        spec_decode(spec_render_bytes(data)) == Some(data),
{
    let text = spec_render_bytes(data);
    let esc = spec_escape_bytes(data);
    assert(text.len() == esc.len() + 3);
    assert(text[0] == 0x62u8 && text[1] == 0x22u8 && text[text.len() - 1] == 0x22u8);
    assert(text.subrange(2, text.len() - 1) =~= esc);
    assert(esc + Seq::<u8>::empty() =~= esc);
    lemma_unescape_escape(data, Seq::<u8>::empty());
    assert(spec_unescape(Seq::<u8>::empty()) == Some(Seq::<u8>::empty()));
    assert(data + Seq::<u8>::empty() =~= data);
}

/// The rendering is unambiguous: two buffers with the same rendering are
/// the same buffer.
pub proof fn lemma_render_bytes_injective(a: Seq<u8>, b: Seq<u8>)
    requires
        spec_render_bytes(a) == spec_render_bytes(b),
    ensures
        a == b,
{
    lemma_decode_of_render(a);
    lemma_decode_of_render(b);
}

fn hex_val(c: u8) -> (r: u8)
    requires
        is_hex_digit(c),
    ensures
        r as int == spec_hex_val(c),
{
    if c <= 0x39 {
        c - 0x30
    } else {
        c - 0x57
    }
}

/// Decodes a rendered byte buffer back to the bytes it shows, or nothing if
/// the text is not a well-formed rendering.
pub fn decode_render(text: &Vec<u8>) -> (r: Option<Vec<u8>>)
    ensures
        match r {
            Some(d) => spec_decode(text@) == Some(d@),
            None => spec_decode(text@) is None,
        },
{
    let n: usize = text.len();
    if n < 3 || text[0] != 0x62 || text[1] != 0x22 || text[n - 1] != 0x22 {
        return None;
    }
    let m: usize = n - 1;
    let ghost mid = text@.subrange(2, m as int);
    let mut out: Vec<u8> = Vec::new();
    let mut i: usize = 2;
    while i < m
        invariant
            n == text@.len(),
            m == n - 1,
            3 <= n,
            2 <= i <= m,
            mid == text@.subrange(2, m as int),
            spec_unescape(mid) == match spec_unescape(text@.subrange(i as int, m as int)) {
                Some(t) => Some(out@ + t),
                None => None::<Seq<u8>>,
            },
        decreases m - i,
    {
        let ghost rem = text@.subrange(i as int, m as int);
        let ghost out0 = out@;
        proof {
            assert(rem[0] == text@[i as int]);
        }
        let b = text[i];
        let v: u8;
        let step: usize;
        if b == 0x5c {
            if i + 1 >= m {
                proof {
                    assert(rem.len() < 2);
                }
                return None;
            }
            proof {
                assert(rem[1] == text@[i as int + 1]);
            }
            let c = text[i + 1];
            if c == 0x6e {
                v = 0x0a;
                step = 2;
            } else if c == 0x72 {
                v = 0x0d;
                step = 2;
            } else if c == 0x74 {
                v = 0x09;
                step = 2;
            } else if c == 0x5c {
                v = 0x5c;
                step = 2;
            } else if c == 0x22 {
                v = 0x22;
                step = 2;
            } else if c == 0x30 {
                v = 0x00;
                step = 2;
            } else if c == 0x78 {
                if i + 3 >= m {
                    proof {
                        assert(rem.len() < 4);
                    }
                    return None;
                }
                proof {
                    assert(rem[2] == text@[i as int + 2]);
                    assert(rem[3] == text@[i as int + 3]);
                }
                let h1 = text[i + 2];
                let h2 = text[i + 3];
                let h1_ok = (0x30 <= h1 && h1 <= 0x39) || (0x61 <= h1 && h1 <= 0x66);
                let h2_ok = (0x30 <= h2 && h2 <= 0x39) || (0x61 <= h2 && h2 <= 0x66);
                if !h1_ok || !h2_ok {
                    return None;
                }
                v = hex_val(h1) * 16 + hex_val(h2);
                step = 4;
            } else {
                return None;
            }
        } else if 0x20 <= b && b < 0x7f && b != 0x22 {
            v = b;
            step = 1;
        } else {
            return None;
        }
        out.push(v);
        proof {
            assert(rem.skip(step as int) =~= text@.subrange(i + step, m as int));
            assert(spec_unescape(rem) == spec_cons(v, spec_unescape(rem.skip(step as int))));
            assert(out@ =~= out0 + seq![v]);
            match spec_unescape(text@.subrange(i + step, m as int)) {
                Some(t) => {
                    assert(out0 + (seq![v] + t) =~= (out0 + seq![v]) + t);
                },
                None => {},
            }
        }
        i = i + step;
    }
    proof {
        assert(text@.subrange(m as int, m as int) =~= Seq::<u8>::empty());
        assert(out@ + Seq::<u8>::empty() =~= out@);
    }
    Some(out)
}

} // verus!
