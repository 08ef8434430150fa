//! Canonical textual rendering of an insertion-ordered map from 32-bit keys
//! to UTF-8 text values: the entries in order between braces, each as
//! `key: "value"`, separated by `, `. An empty map renders as `{}`.

use vstd::prelude::*;
use crate::text::lemma_int_text_nul_free;
use crate::text::lemma_quoted_nul_free;
use crate::text::push_int_text;
use crate::text::push_quoted_text;
use crate::text::spec_int_text;
use crate::text::spec_quoted;
use crate::wire::nul_free;

verus! {

/// The view of an entry list: each value as its byte sequence.
pub open spec fn entries_view(s: Seq<(i32, Vec<u8>)>) -> Seq<(i32, Seq<u8>)> {
    s.map_values(|p: (i32, Vec<u8>)| (p.0, p.1@))
}

/// The rendering of one entry: the key's decimal text, `: `, the quoted value.
pub open spec fn spec_render_entry(e: (i32, Seq<u8>)) -> Seq<u8> {
    spec_int_text(e.0 as int) + seq![0x3au8, 0x20u8] + spec_quoted(e.1)
}

/// The rendering of every entry after the first, each preceded by `, `.
pub open spec fn spec_render_rest(s: Seq<(i32, Seq<u8>)>) -> Seq<u8>
    decreases s.len(),
{
    if s.len() == 0 {
        Seq::empty()
    } else {
        seq![0x2cu8, 0x20u8] + spec_render_entry(s[0]) + spec_render_rest(s.drop_first())
    }
}

/// The full rendering of an ordered map.
pub open spec fn spec_render_map(s: Seq<(i32, Seq<u8>)>) -> Seq<u8> {
    if s.len() == 0 {
        seq![0x7bu8, 0x7du8]
    } else {
        seq![0x7bu8] + spec_render_entry(s[0]) + spec_render_rest(s.drop_first()) + seq![0x7du8]
    }
}

pub proof fn lemma_render_rest_push(s: Seq<(i32, Seq<u8>)>, e: (i32, Seq<u8>))
    ensures
        spec_render_rest(s.push(e)) == spec_render_rest(s) + seq![0x2cu8, 0x20u8]
            + spec_render_entry(e),
    decreases s.len(),
{
    assert(s.push(e)[0] == if s.len() == 0 { e } else { s[0] });
    if s.len() == 0 {
        let t = s.push(e);
        assert(t.drop_first() =~= Seq::<(i32, Seq<u8>)>::empty());
        assert(spec_render_rest(t.drop_first()) =~= Seq::<u8>::empty());
        assert(spec_render_rest(t) == seq![0x2cu8, 0x20u8] + spec_render_entry(e)
            + spec_render_rest(t.drop_first()));
        assert(spec_render_rest(s) =~= Seq::<u8>::empty());
        assert(spec_render_rest(s.push(e)) =~= spec_render_rest(s) + seq![0x2cu8, 0x20u8]
            + spec_render_entry(e));
    } else {
        assert(s.push(e).drop_first() =~= s.drop_first().push(e));
        lemma_render_rest_push(s.drop_first(), e);
        assert(spec_render_rest(s.push(e)) =~= spec_render_rest(s) + seq![0x2cu8, 0x20u8]
            + spec_render_entry(e));
    }
}

fn push_entry(out: &mut Vec<u8>, k: i32, v: &Vec<u8>)
    ensures
        final(out)@ == old(out)@ + spec_render_entry((k, v@)),
{
    push_int_text(out, k);
    out.push(0x3a);
    out.push(0x20);
    push_quoted_text(out, v);
    proof {
        assert(out@ =~= old(out)@ + spec_render_entry((k, v@)));
    }
}

/// Renders an entry list to the canonical map form.
pub fn render_entries(entries: &Vec<(i32, Vec<u8>)>) -> (out: Vec<u8>)
    ensures
        out@ == spec_render_map(entries_view(entries@)),
{
    let ghost view = entries_view(entries@);
    let mut out: Vec<u8> = Vec::new();
    out.push(0x7b);
    let n: usize = entries.len();
    if n > 0 {
        let k0: i32 = entries[0].0;
        push_entry(&mut out, k0, &entries[0].1);
        proof {
            assert(view[0] == (entries@[0].0, entries@[0].1@));
            assert(view.subrange(1, 1) =~= Seq::<(i32, Seq<u8>)>::empty());
            assert(out@ =~= seq![0x7bu8] + spec_render_entry(view[0])
                + spec_render_rest(view.subrange(1, 1)));
        }
        let mut i: usize = 1;
        while i < n
            invariant
                n == entries@.len(),
                view == entries_view(entries@),
                1 <= i <= n,
                out@ == seq![0x7bu8] + spec_render_entry(view[0])
                    + spec_render_rest(view.subrange(1, i as int)),
            decreases n - i,
        {
            out.push(0x2c);
            out.push(0x20);
            let ki: i32 = entries[i].0;
            push_entry(&mut out, ki, &entries[i].1);
            proof {
                assert(view[i as int] == (entries@[i as int].0, entries@[i as int].1@));
                assert(view.subrange(1, i + 1) =~= view.subrange(1, i as int).push(
                    view[i as int]));
                lemma_render_rest_push(view.subrange(1, i as int), view[i as int]);
                assert(out@ =~= seq![0x7bu8] + spec_render_entry(view[0])
                    + spec_render_rest(view.subrange(1, i + 1)));
            }
            i = i + 1;
        }
        proof {
            assert(view.subrange(1, n as int) =~= view.drop_first());
        }
    }
    out.push(0x7d);
    proof {
        assert(out@ =~= spec_render_map(view));
    }
    out
}

pub proof fn lemma_render_entry_nul_free(e: (i32, Seq<u8>))
    ensures
        nul_free(spec_render_entry(e)),
{
    lemma_int_text_nul_free(e.0 as int);
    lemma_quoted_nul_free(e.1);
}

pub proof fn lemma_render_rest_nul_free(s: Seq<(i32, Seq<u8>)>)
    ensures
        nul_free(spec_render_rest(s)),
    decreases s.len(),
{
    if s.len() == 0 {
    } else {
        lemma_render_entry_nul_free(s[0]);
        lemma_render_rest_nul_free(s.drop_first());
    }
}

/// A rendered map never holds the terminator, so it always has a wire form.
pub proof fn lemma_render_map_nul_free(s: Seq<(i32, Seq<u8>)>)
    ensures
        nul_free(spec_render_map(s)),
{
    if s.len() > 0 {
        lemma_render_entry_nul_free(s[0]);
        lemma_render_rest_nul_free(s.drop_first());
    }
}

} // verus!
