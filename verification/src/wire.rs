//! The handoff wire form: a text crosses the foreign boundary as its bytes
//! followed by a single zero terminator, so the caller can recover the text
//! without an explicit length parameter. Text holding an embedded terminator
//! has no wire form; the renderers in this crate never produce one (see the
//! `nul_free` lemmas beside them).

use vstd::prelude::*;

verus! {

/// Text that the wire form can carry: no byte equals the terminator.
pub open spec fn nul_free(s: Seq<u8>) -> bool {
    forall|i: int| 0 <= i < s.len() ==> s[i] != 0u8
}

/// The wire form of a text: its bytes followed by one zero terminator.
pub open spec fn spec_wire(text: Seq<u8>) -> Seq<u8> {
    text + seq![0u8]
}

/// What a caller reads back from a buffer: the bytes before the first zero
/// (the whole buffer if no zero occurs).
pub open spec fn spec_payload(w: Seq<u8>) -> Seq<u8>
    decreases w.len(),
{
    if w.len() == 0 {
        Seq::empty()
    } else if w[0] == 0u8 {
        Seq::empty()
    } else {
        seq![w[0]] + spec_payload(w.drop_first())
    }
}

/// Frames a text for handoff by appending the terminator.
pub fn to_wire(text: Vec<u8>) -> (r: Vec<u8>)
    requires
        nul_free(text@),
    ensures
        r@ == spec_wire(text@),
{
    let ghost t = text@;
    let mut buf = text;
    buf.push(0u8);
    proof {
        assert(buf@ =~= t + seq![0u8]);
    }
    buf
}

/// A caller reading up to the terminator recovers exactly the text that was
/// framed: the wire form loses nothing.
pub proof fn lemma_payload_of_wire(text: Seq<u8>)
    requires
        nul_free(text),
    ensures
        spec_payload(spec_wire(text)) == text,
    decreases text.len(),
{
    if text.len() == 0 {
        assert(spec_wire(text)[0] == 0u8);
        assert(spec_payload(spec_wire(text)) =~= text);
    } else {
        lemma_payload_of_wire(text.drop_first());
        assert(spec_wire(text).drop_first() =~= spec_wire(text.drop_first()));
        assert(spec_payload(spec_wire(text)) =~= text);
    }
}

/// Scans a buffer for the terminator and returns the payload length, the way
/// the foreign caller determines how much text it was handed.
pub fn payload_len(w: &Vec<u8>) -> (r: usize)
    requires
        exists|i: int| 0 <= i < w@.len() && w@[i] == 0u8,
    ensures
        r < w@.len(),
        w@[r as int] == 0u8,
        forall|i: int| 0 <= i < r ==> w@[i] != 0u8,
        w@.take(r as int) == spec_payload(w@),
{
    let n: usize = w.len();
    let mut i: usize = 0;
    while w[i] != 0u8
        invariant
            n == w@.len(),
            0 <= i < w@.len(),
            exists|j: int| 0 <= j < w@.len() && w@[j] == 0u8,
            forall|j: int| 0 <= j < i ==> w@[j] != 0u8,
        decreases w@.len() - i,
    {
        proof {
            let j = choose|j: int| 0 <= j < w@.len() && w@[j] == 0u8;
            assert(i < j);
        }
        i = i + 1;
    }
    proof {
        lemma_payload_is_prefix(w@, i as int);
    }
    i
}

/// The payload of a buffer whose first zero stands at `k` is its first `k` bytes.
proof fn lemma_payload_is_prefix(w: Seq<u8>, k: int)
    requires
        0 <= k < w.len(),
        w[k] == 0u8,
        forall|i: int| 0 <= i < k ==> w[i] != 0u8,
    ensures
        spec_payload(w) == w.take(k),
    decreases k,
{
    if k == 0 {
        assert(spec_payload(w) =~= w.take(0));
    } else {
        lemma_payload_is_prefix(w.drop_first(), k - 1);
        assert(w.drop_first().take(k - 1) =~= w.take(k).drop_first());
        assert(spec_payload(w) =~= seq![w[0]] + w.take(k).drop_first());
        assert(spec_payload(w) =~= w.take(k));
    }
}

} // verus!
