//! Building a listing: dropping hidden names and sorting what is left into
//! the listing order.

use vstd::prelude::*;
use crate::entry::{FileEntry, visible, is_visible};
use crate::order::{
    entry_le, entry_le_exec, entries_sorted, lemma_entry_le_total, lemma_entry_le_trans, lex_le,
    lower_bytes_of,
};

verus! {

/// The subsequence of visible entries, in their original order.
pub open spec fn visible_of(s: Seq<FileEntry>) -> Seq<FileEntry> {
    s.filter(|e: FileEntry| visible(e))
}

/// A sequence of entirely hidden candidates filters down to nothing.
proof fn lemma_all_hidden_filters_to_empty(entries: Seq<FileEntry>)
    requires
        forall|i: int| 0 <= i < entries.len() ==> !visible(#[trigger] entries[i]),
    ensures
        visible_of(entries).len() == 0,
    decreases entries.len(),
{
    reveal(Seq::<_>::filter);
    if entries.len() > 0 {
        lemma_all_hidden_filters_to_empty(entries.drop_last());
    }
}

/// Keeps exactly the visible entries, in their original order.
fn keep_visible(entries: Vec<FileEntry>) -> (r: Vec<FileEntry>)
    ensures
        r@ == visible_of(entries@),
{
    let mut rest = entries;
    let mut out: Vec<FileEntry> = Vec::new();
    let ghost orig: Seq<FileEntry> = rest@;
    let ghost mut processed: Seq<FileEntry> = Seq::empty();
    proof {
        reveal(Seq::<_>::filter);
        assert(processed + rest@ =~= orig);
        assert(out@ =~= visible_of(processed));
    }
    while rest.len() > 0
        invariant
            processed + rest@ == orig,
            out@ == visible_of(processed),
        decreases rest@.len(),
    {
        let ghost pre = processed;
        let ghost prerest = rest@;
        let e = rest.remove(0);
        let ghost ev = e;
        if is_visible(&e) {
            out.push(e);
        }
        proof {
            broadcast use vstd::seq_lib::group_seq_lib_default;

            processed = pre.push(ev);
            assert(prerest =~= seq![ev] + rest@);
            assert(processed + rest@ =~= (pre + (seq![ev] + rest@)));
            assert(processed + rest@ =~= orig);
            reveal(Seq::<_>::filter);
            assert(seq![ev].drop_last() =~= Seq::<FileEntry>::empty());
            assert(visible_of(Seq::<FileEntry>::empty()) =~= Seq::<FileEntry>::empty());
            if visible(ev) {
                assert(visible_of(seq![ev]) =~= seq![ev]);
            } else {
                assert(visible_of(seq![ev]) =~= Seq::<FileEntry>::empty());
            }
            assert(processed =~= pre + seq![ev]);
            assert(visible_of(processed) =~= visible_of(pre) + visible_of(seq![ev]));
            assert(out@ =~= visible_of(processed));
        }
    }
    proof {
        assert(processed =~= orig);
    }
    out
}

/// Finds a position of a least entry under the listing order.
fn min_index(v: &Vec<FileEntry>) -> (m: usize)
    requires
        v@.len() > 0,
    ensures
        m < v@.len(),
        forall|k: int| 0 <= k < v@.len() ==> entry_le(v@[m as int], #[trigger] v@[k]),
{
    let mut m: usize = 0;
    let mut k: usize = 1;
    proof {
        lemma_entry_le_total(v@[0], v@[0]);
    }
    while k < v.len()
        invariant
            m < k <= v@.len(),
            forall|t: int| 0 <= t < k ==> entry_le(v@[m as int], #[trigger] v@[t]),
        decreases v@.len() - k,
    {
        if !entry_le_exec(&v[m], &v[k]) {
            proof {
                lemma_entry_le_total(v@[m as int], v@[k as int]);
                assert forall|t: int| 0 <= t < k + 1 implies entry_le(
                    v@[k as int],
                    #[trigger] v@[t],
                ) by {
                    if t < k {
                        lemma_entry_le_trans(v@[k as int], v@[m as int], v@[t]);
                    } else {
                        lemma_entry_le_total(v@[k as int], v@[k as int]);
                    }
                }
            }
            m = k;
        } else {
            proof {
                lemma_entry_le_total(v@[k as int], v@[k as int]);
            }
        }
        k = k + 1;
    }
    m
}

/// Sorts entries into the listing order. The result holds the same entries,
/// as a multiset, as the input.
fn sort_entries(entries: Vec<FileEntry>) -> (r: Vec<FileEntry>)
    ensures
        entries_sorted(r@),
        r@.to_multiset() == entries@.to_multiset(),
{
    let mut rest = entries;
    let mut out: Vec<FileEntry> = Vec::new();
    let ghost orig: Seq<FileEntry> = rest@;
    proof {
        broadcast use vstd::seq_lib::group_to_multiset_ensures;
        broadcast use vstd::multiset::group_multiset_axioms;

        assert(out@.to_multiset().add(rest@.to_multiset()) =~= orig.to_multiset());
    }
    while rest.len() > 0
        invariant
            out@.to_multiset().add(rest@.to_multiset()) == orig.to_multiset(),
            entries_sorted(out@),
            forall|i: int, j: int|
                0 <= i < out@.len() && 0 <= j < rest@.len() ==> entry_le(
                    #[trigger] out@[i],
                    #[trigger] rest@[j],
                ),
        decreases rest@.len(),
    {
        let ghost pre_out = out@;
        let ghost pre_v = rest@;
        let m = min_index(&rest);
        let e = rest.remove(m);
        let ghost ev = e;
        out.push(e);
        proof {
            broadcast use vstd::seq_lib::group_to_multiset_ensures;
            broadcast use vstd::multiset::group_multiset_axioms;

            assert(pre_v.contains(pre_v[m as int]));
            assert(pre_v.to_multiset().count(ev) > 0);
            assert(rest@.to_multiset() =~= pre_v.to_multiset().remove(ev));
            assert(out@.to_multiset() =~= pre_out.to_multiset().insert(ev));
            assert forall|x: FileEntry|
                out@.to_multiset().add(rest@.to_multiset()).count(x) == orig.to_multiset().count(
                    x,
                ) by {
                assert(pre_out.to_multiset().add(pre_v.to_multiset()).count(x)
                    == orig.to_multiset().count(x));
            }
            assert(out@.to_multiset().add(rest@.to_multiset()) =~= orig.to_multiset());
            assert forall|j: int| 0 <= j < rest@.len() implies entry_le(ev, #[trigger] rest@[j]) by {
                if j < m {
                    assert(rest@[j] == pre_v[j]);
                } else {
                    assert(rest@[j] == pre_v[j + 1]);
                }
            }
            assert forall|i: int, j: int|
                0 <= i < out@.len() && 0 <= j < rest@.len() implies entry_le(
                    #[trigger] out@[i],
                    #[trigger] rest@[j],
                ) by {
                if i < pre_out.len() {
                    if j < m {
                        assert(rest@[j] == pre_v[j]);
                    } else {
                        assert(rest@[j] == pre_v[j + 1]);
                    }
                } else {
                    assert(out@[i] == ev);
                }
            }
            assert forall|i: int, j: int| 0 <= i < j < out@.len() implies entry_le(
                #[trigger] out@[i],
                #[trigger] out@[j],
            ) by {
                if j < pre_out.len() {
                    assert(entry_le(pre_out[i], pre_out[j]));
                } else {
                    assert(out@[j] == ev);
                    assert(entry_le(pre_out[i], pre_v[m as int]));
                }
            }
        }
    }
    out
}

/// Builds the listing from the candidate entries of one directory: hidden
/// names are excluded, and what is left is returned in listing order —
/// directories before non-directories, names non-decreasing under the
/// case-folded comparison within each class. A wholly hidden candidate set
/// yields an empty listing.
pub fn list_from_entries(entries: Vec<FileEntry>) -> (r: Vec<FileEntry>)
    ensures
        r@.to_multiset() == visible_of(entries@).to_multiset(),
        entries_sorted(r@),
        forall|i: int| 0 <= i < r@.len() ==> visible(#[trigger] r@[i]),
        forall|i: int, j: int|
            0 <= i < j < r@.len() && (#[trigger] r@[j]).is_dir ==> (#[trigger] r@[i]).is_dir,
        forall|i: int, j: int|
            0 <= i < j < r@.len() && (#[trigger] r@[i]).is_dir == (#[trigger] r@[j]).is_dir
                ==> lex_le(lower_bytes_of(r@[i].name@), lower_bytes_of(r@[j].name@)),
        (forall|i: int| 0 <= i < entries@.len() ==> !visible(#[trigger] entries@[i])) ==> r@.len()
            == 0,
{
    let ghost input = entries@;
    let kept = keep_visible(entries);
    let r = sort_entries(kept);
    proof {
        broadcast use vstd::seq_lib::group_to_multiset_ensures;
        broadcast use vstd::seq_lib::group_filter_ensures;

        let filt = visible_of(input);
        assert forall|i: int| 0 <= i < r@.len() implies visible(#[trigger] r@[i]) by {
            assert(r@.contains(r@[i]));
            assert(r@.to_multiset().count(r@[i]) > 0);
            assert(filt.to_multiset().count(r@[i]) > 0);
            assert(filt.contains(r@[i]));
            let k = choose|k: int| 0 <= k < filt.len() && filt[k] == r@[i];
            assert(visible(filt[k]));
        }
        assert forall|i: int, j: int|
            0 <= i < j < r@.len() && (#[trigger] r@[j]).is_dir implies (
            #[trigger] r@[i]).is_dir by {
            assert(entry_le(r@[i], r@[j]));
        }
        assert forall|i: int, j: int|
            0 <= i < j < r@.len() && (#[trigger] r@[i]).is_dir == (
            #[trigger] r@[j]).is_dir implies lex_le(
            lower_bytes_of(r@[i].name@),
            lower_bytes_of(r@[j].name@),
        ) by {
            assert(entry_le(r@[i], r@[j]));
        }
        if forall|i: int| 0 <= i < input.len() ==> !visible(#[trigger] input[i]) {
            lemma_all_hidden_filters_to_empty(input);
            assert(r@.to_multiset().len() == filt.to_multiset().len());
        }
    }
    r
}

} // verus!
