//! The two inspected-value types the bridge can render live in outside
//! crates. Each is declared so it can stand in signatures, its contents are
//! given a name, and one trusted accessor per type hands those contents over
//! as plain values; everything after that point is verified.

use vstd::prelude::*;
use crate::map::entries_view;
use crate::map::render_entries;
use crate::map::spec_render_map;
use crate::render::render_bytes;
use crate::render::spec_render_bytes;

verus! {

#[verifier::external_type_specification]
#[verifier::external_body]
pub struct ExBytes(bytes::Bytes);

/// The bytes a shared byte buffer holds, in order.
pub uninterp spec fn bytes_view(b: bytes::Bytes) -> Seq<u8>;

/// Relies on Bytes::as_ref (its AsRef<[u8]> impl): a shared byte buffer
/// dereferences to exactly the bytes it holds, in order.
#[verifier::external_body]
fn bytes_contents(b: &bytes::Bytes) -> (r: Vec<u8>)
    ensures
        r@ == bytes_view(*b),
{
    b.as_ref().to_vec()
}

#[verifier::external_type_specification]
#[verifier::external_body]
#[verifier::reject_recursive_types(K)]
#[verifier::reject_recursive_types(V)]
#[verifier::reject_recursive_types(S)]
pub struct ExIndexMap<K, V, S>(indexmap::IndexMap<K, V, S>);

/// The entries an insertion-ordered map holds, in order, each value as its
/// UTF-8 bytes.
pub uninterp spec fn index_map_view(m: indexmap::IndexMap<i32, &str>) -> Seq<(i32, Seq<u8>)>;

/// Relies on IndexMap::iter: it yields the map's entries in their insertion
/// order; str::as_bytes then takes each value to its UTF-8 bytes.
#[verifier::external_body]
fn index_map_entries(m: &indexmap::IndexMap<i32, &str>) -> (r: Vec<(i32, Vec<u8>)>)
    ensures
        entries_view(r@) == index_map_view(*m),
{
    m.iter().map(|(k, v)| (*k, v.as_bytes().to_vec())).collect()
}

/// Renders a shared byte buffer of the inspected process to its canonical
/// textual form.
pub fn render_bytes_value(b: &bytes::Bytes) -> (out: Vec<u8>)
    ensures
        out@ == spec_render_bytes(bytes_view(*b)),
{
    let data = bytes_contents(b);
    render_bytes(&data)
}

/// Renders an insertion-ordered map of the inspected process to its
/// canonical textual form.
pub fn render_map_value(m: &indexmap::IndexMap<i32, &str>) -> (out: Vec<u8>)
    ensures
        out@ == spec_render_map(index_map_view(*m)),
{
    let entries = index_map_entries(m);
    render_entries(&entries)
}

} // verus!
