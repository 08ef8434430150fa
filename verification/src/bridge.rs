//! The compute side of each boundary operation: decide on the sentinel,
//! render, and frame. The caller-facing shell around these only turns an
//! address into a reference and the returned frame into a heap block it
//! hands off; every byte of the reply is fixed here.

use vstd::prelude::*;
use crate::foreign::bytes_view;
use crate::foreign::index_map_view;
use crate::foreign::render_bytes_value;
use crate::foreign::render_map_value;
use crate::map::lemma_render_map_nul_free;
use crate::map::spec_render_map;
use crate::render::lemma_render_bytes_nul_free;
use crate::render::spec_render_bytes;
use crate::wire::nul_free;
use crate::wire::spec_wire;
use crate::wire::to_wire;

verus! {

/// A handle is the unsigned-integer form of an address crossing the foreign
/// boundary. Zero is the sentinel for "no value": the only handle the bridge
/// may act on without dereferencing anything, whether formatting (the
/// placeholder is returned) or releasing (a no-op).
pub fn is_null_handle(handle: usize) -> (r: bool)
    ensures
        r == (handle == 0),
{
    handle == 0
}

/// The placeholder text for the sentinel zero address: `<null>`.
pub open spec fn spec_null_text() -> Seq<u8> {
    seq![0x3cu8, 0x6eu8, 0x75u8, 0x6cu8, 0x6cu8, 0x3eu8]
}

/// The placeholder handed out for the zero address; the same fixed text for
/// every supported type.
pub fn null_text() -> (r: Vec<u8>)
    ensures
        r@ == spec_null_text(),
{
    let mut out: Vec<u8> = Vec::new();
    out.push(0x3c);
    out.push(0x6e);
    out.push(0x75);
    out.push(0x6c);
    out.push(0x6c);
    out.push(0x3e);
    proof {
        assert(out@ =~= spec_null_text());
    }
    out
}

pub proof fn lemma_null_text_nul_free()
    ensures
        nul_free(spec_null_text()),
{
}

/// The whole reply for a byte-buffer request: the placeholder when no value
/// was given (the zero address), else the buffer's canonical rendering, each
/// framed with the terminator.
pub fn bytes_reply(value: Option<&bytes::Bytes>) -> (r: Vec<u8>)
    ensures
        value is None ==> r@ == spec_wire(spec_null_text()),
        value matches Some(b) ==> r@ == spec_wire(spec_render_bytes(bytes_view(*b))),
{
    match value {
        None => {
            let t = null_text();
            proof {
                lemma_null_text_nul_free();
            }
            to_wire(t)
        },
        Some(b) => {
            let t = render_bytes_value(b);
            proof {
                lemma_render_bytes_nul_free(bytes_view(*b));
            }
            to_wire(t)
        },
    }
}

/// The whole reply for an ordered-map request: the placeholder when no value
/// was given (the zero address), else the map's canonical rendering, each
/// framed with the terminator.
pub fn map_reply(value: Option<&indexmap::IndexMap<i32, &str>>) -> (r: Vec<u8>)
    ensures
        value is None ==> r@ == spec_wire(spec_null_text()),
        value matches Some(m) ==> r@ == spec_wire(spec_render_map(index_map_view(*m))),
{
    match value {
        None => {
            let t = null_text();
            proof {
                lemma_null_text_nul_free();
            }
            to_wire(t)
        },
        Some(m) => {
            let t = render_map_value(m);
            proof {
                lemma_render_map_nul_free(index_map_view(*m));
            }
            to_wire(t)
        },
    }
}

} // verus!
