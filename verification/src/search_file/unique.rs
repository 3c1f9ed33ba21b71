//! Files of the same content, told by their digest, reduced to one each.

use vstd::prelude::*;
use crate::search_file::order::{
    is_ordered,
    lemma_sorted_permutes,
    lemma_ordering_is_total_preorder,
    lemma_sorted_is_ordered,
    lemma_sorted_len,
    lemma_sorted_of_ordered,
    ordering,
    sort_by_key,
    sorted_by,
    SortKey,
};
use crate::search_file::{file_views, FileView, SingleFileInformations};
use crate::text::lemma_lex_le_antisymmetric;

verus! {

/// The files without those whose digest is that of the file just before
/// them: of a run of files with one digest the first stays.
pub open spec fn without_repeats(items: Seq<FileView>) -> Seq<FileView>
    decreases items.len(),
{
    if items.len() == 0 {
        items
    } else {
        let rest = without_repeats(items.drop_last());
        if items.len() >= 2 && items[items.len() - 2].hash == items.last().hash {
            rest
        } else {
            rest.push(items.last())
        }
    }
}

/// Whether no file has the digest of the file just before it.
pub open spec fn no_repeats(items: Seq<FileView>) -> bool {
    forall|i: int| 1 <= i < items.len() ==> items[i - 1].hash != (#[trigger] items[i]).hash
}

/// What `unique_files` makes of a collection. Where the collection is empty
/// or its first file has no digest, it is left as it is: no digests were
/// taken. Else it is sorted by digest, and of the files with one digest the
/// first stays.
pub open spec fn deduplicated(items: Seq<FileView>) -> Seq<FileView> {
    if items.len() == 0 || items[0].hash.len() == 0 {
        items
    } else {
        without_repeats(sorted_by(items, ordering(SortKey::Hash, false)))
    }
}

/// What is left without repeats: files of the sequence, its first and one
/// with the digest of its last among them, none with the digest of the one
/// before.
proof fn lemma_without_repeats(items: Seq<FileView>)
    ensures
        no_repeats(without_repeats(items)),
        without_repeats(items).len() <= items.len(),
        items.len() > 0 ==> without_repeats(items).len() > 0 && without_repeats(items).last().hash
            == items.last().hash && without_repeats(items)[0] == items[0],
        forall|k: int|
            0 <= k < without_repeats(items).len() ==> items.contains(
                #[trigger] without_repeats(items)[k],
            ),
    decreases items.len(),
{
    if items.len() > 0 {
        let init = items.drop_last();
        lemma_without_repeats(init);
        let rest = without_repeats(init);
        let all = without_repeats(items);
        assert forall|k: int| 0 <= k < all.len() implies items.contains(#[trigger] all[k]) by {
            if k < rest.len() {
                let m = choose|m: int| 0 <= m < init.len() && init[m] == rest[k];
            } else {
                assert(items[items.len() - 1] == all[k]);
            }
        }
        if init.len() > 0 {
            assert(init.last() == items[items.len() - 2]);
        }
    }
}

/// What is left of an ordered sequence is in order.
proof fn lemma_without_repeats_ordered(items: Seq<FileView>, le: spec_fn(FileView, FileView) -> bool)
    requires
        is_ordered(items, le),
    ensures
        is_ordered(without_repeats(items), le),
    decreases items.len(),
{
    if items.len() > 0 {
        let init = items.drop_last();
        assert(is_ordered(init, le)) by {
            assert forall|i: int, j: int| 0 <= i < j < init.len() implies le(init[i], init[j]) by {
                assert(le(items[i], items[j]));
            }
        }
        lemma_without_repeats_ordered(init, le);
        lemma_without_repeats(init);
        let rest = without_repeats(init);
        let all = without_repeats(items);
        assert forall|i: int, j: int| 0 <= i < j < all.len() implies le(all[i], all[j]) by {
            if j < rest.len() {
                assert(le(rest[i], rest[j]));
            } else {
                let m = choose|m: int| 0 <= m < init.len() && init[m] == rest[i];
            }
        }
    }
}

/// A sequence without repeats is left as it is.
proof fn lemma_without_repeats_fixed(items: Seq<FileView>)
    requires
        no_repeats(items),
    ensures
        without_repeats(items) == items,
    decreases items.len(),
{
    if items.len() > 0 {
        let init = items.drop_last();
        assert(no_repeats(init)) by {
            assert forall|i: int| 1 <= i < init.len() implies init[i - 1].hash != (
            #[trigger] init[i]).hash by {
                assert(items[i - 1].hash != items[i].hash);
            }
        }
        lemma_without_repeats_fixed(init);
        if items.len() >= 2 {
            assert(items[items.len() - 2].hash != items[items.len() - 1].hash);
        }
    }
}

/// Reducing a collection twice gives what reducing it once gives.
pub proof fn lemma_dedup_idempotent(items: Seq<FileView>)
    ensures
        deduplicated(deduplicated(items)) == deduplicated(items),
{
    let le = ordering(SortKey::Hash, false);
    let once = deduplicated(items);
    if !(items.len() == 0 || items[0].hash.len() == 0) {
        let sorted = sorted_by(items, le);
        lemma_ordering_is_total_preorder(SortKey::Hash, false);
        lemma_sorted_is_ordered(items, le);
        lemma_sorted_len(items, le);
        lemma_without_repeats(sorted);
        lemma_without_repeats_ordered(sorted, le);
        lemma_sorted_of_ordered(once, le);
        lemma_without_repeats_fixed(once);
    }
}

/// Every digest of the sequence is the digest of a file that is left.
proof fn lemma_without_repeats_covers(items: Seq<FileView>, at: int)
    requires
        0 <= at < items.len(),
    ensures
        exists|i: int|
            0 <= i < without_repeats(items).len() && (#[trigger] without_repeats(items)[i]).hash
                == items[at].hash,
    decreases items.len(),
{
    let init = items.drop_last();
    let rest = without_repeats(init);
    let all = without_repeats(items);
    lemma_without_repeats(init);
    if at < items.len() - 1 || all.len() == rest.len() {
        let source = if at < items.len() - 1 {
            at
        } else {
            items.len() - 2
        };
        lemma_without_repeats_covers(init, source);
        let i = choose|i: int| 0 <= i < rest.len() && (#[trigger] rest[i]).hash == init[source].hash;
        assert(all[i] == rest[i]);
    } else {
        assert(all[all.len() - 1] == items[at]);
    }
}

/// In an ordered sequence without repeats no two files have the same
/// digest.
proof fn lemma_ordered_without_repeats_distinct(items: Seq<FileView>, i: int, j: int)
    requires
        is_ordered(items, ordering(SortKey::Hash, false)),
        no_repeats(items),
        0 <= i < j < items.len(),
    ensures
        items[i].hash != items[j].hash,
{
    let le = ordering(SortKey::Hash, false);
    if items[i].hash == items[j].hash {
        if j == i + 1 {
            assert(items[j - 1].hash != items[j].hash);
        } else {
            lemma_lex_le_antisymmetric(items[i].hash, items[i + 1].hash);
        }
    }
}

/// What reducing a collection with digests leaves: files of the collection,
/// no two of them with the same digest, and for every digest of the
/// collection one.
pub proof fn lemma_dedup_keeps_one_of_each(items: Seq<FileView>)
    requires
        items.len() > 0,
        items[0].hash.len() > 0,
    ensures
        forall|i: int|
            0 <= i < deduplicated(items).len() ==> items.contains(#[trigger] deduplicated(items)[i]),
        forall|i: int, j: int|
            0 <= i < j < deduplicated(items).len() ==> deduplicated(items)[i].hash != deduplicated(
                items,
            )[j].hash,
        forall|k: int|
            0 <= k < items.len() ==> exists|i: int|
                0 <= i < deduplicated(items).len() && (#[trigger] deduplicated(items)[i]).hash == (
                #[trigger] items[k]).hash,
{
    let le = ordering(SortKey::Hash, false);
    let sorted = sorted_by(items, le);
    let left = deduplicated(items);
    lemma_ordering_is_total_preorder(SortKey::Hash, false);
    lemma_sorted_is_ordered(items, le);
    lemma_sorted_permutes(items, le);
    lemma_without_repeats(sorted);
    lemma_without_repeats_ordered(sorted, le);
    assert forall|i: int| 0 <= i < left.len() implies items.contains(#[trigger] left[i]) by {
        vstd::seq_lib::to_multiset_contains(sorted, left[i]);
        vstd::seq_lib::to_multiset_contains(items, left[i]);
    }
    assert forall|i: int, j: int| 0 <= i < j < left.len() implies left[i].hash != left[j].hash by {
        lemma_ordered_without_repeats_distinct(left, i, j);
    }
    assert forall|k: int| 0 <= k < items.len() implies exists|i: int|
        0 <= i < left.len() && (#[trigger] left[i]).hash == (#[trigger] items[k]).hash by {
        vstd::seq_lib::to_multiset_contains(items, items[k]);
        vstd::seq_lib::to_multiset_contains(sorted, items[k]);
        let at = choose|at: int| 0 <= at < sorted.len() && sorted[at] == items[k];
        lemma_without_repeats_covers(sorted, at);
    }
}

/// A collection in which no file has a digest is left as it is.
pub proof fn lemma_dedup_without_digests(items: Seq<FileView>)
    requires
        forall|i: int| 0 <= i < items.len() ==> (#[trigger] items[i]).hash.len() == 0,
    ensures
        deduplicated(items) == items,
{
}

/// Leaves of the files with the same content one each. See `deduplicated`.
pub fn unique_files(files: &mut Vec<SingleFileInformations>)
    ensures
        file_views(final(files)@) == deduplicated(file_views(old(files)@)),
{
    if files.len() == 0 || files[0].hash.as_str().is_empty() {
        return;
    }
    sort_by_key(files, SortKey::Hash, false);
    let ghost sorted = file_views(files@);
    let mut kept: Vec<SingleFileInformations> = Vec::new();
    let mut i: usize = 0;
    proof {
        assert(sorted.take(0) =~= Seq::<FileView>::empty());
    }
    while i < files.len()
        invariant
            i <= files@.len(),
            sorted == file_views(files@),
            file_views(kept@) == without_repeats(sorted.take(i as int)),
        decreases files@.len() - i,
    {
        proof {
            assert(sorted.take(i + 1).drop_last() =~= sorted.take(i as int));
            if i > 0 {
                assert(sorted.take(i + 1)[i - 1] == files@[i - 1]@);
            }
        }
        if i == 0 || !(files[i - 1].hash == files[i].hash) {
            kept.push(files[i].clone());
        }
        i += 1;
    }
    proof {
        assert(sorted.take(files@.len() as int) =~= sorted);
    }
    *files = kept;
}

} // verus!
