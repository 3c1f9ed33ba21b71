//! The order of the files found: by which key one file stands before
//! another, the sorted collection, and what holds of it.

use vstd::prelude::*;
use crate::path::{components, split_path};
use crate::search_file::{file_views, FileView, SingleFileInformations};
use crate::text::{
    lemma_lex_le_total,
    lemma_lex_le_transitive,
    lex_le,
    text_eq,
    text_le,
    text_views,
};

verus! {

/// What a collection is sorted by.
#[derive(Debug, Clone, Copy, PartialEq, Eq, Structural)]
pub enum SortKey {
    /// The name of the file, as text.
    Name,
    /// The size in bytes.
    Size,
    /// The time of the last modification.
    Time,
    /// The path, component by component, each as text.
    Path,
    /// The digest, as text.
    Hash,
}

/// The key that a sort type names: `name`, `size`, `time` or `path`.
pub open spec fn sort_key_of(sort_type: Seq<char>) -> Option<SortKey> {
    if sort_type == "name"@ {
        Some(SortKey::Name)
    } else if sort_type == "size"@ {
        Some(SortKey::Size)
    } else if sort_type == "time"@ {
        Some(SortKey::Time)
    } else if sort_type == "path"@ {
        Some(SortKey::Path)
    } else {
        None
    }
}

/// Whether the components `a` stand at or before the components `b`: the
/// first component in which they differ decides, and a path stands before
/// those that continue it.
pub open spec fn parts_le(a: Seq<Seq<char>>, b: Seq<Seq<char>>) -> bool
    decreases a.len(),
{
    if a.len() == 0 {
        true
    } else if b.len() == 0 {
        false
    } else if a[0] != b[0] {
        lex_le(a[0], b[0])
    } else {
        parts_le(a.drop_first(), b.drop_first())
    }
}

/// Whether file `a` stands at or before file `b` by the key.
pub open spec fn key_le(key: SortKey, a: FileView, b: FileView) -> bool {
    match key {
        SortKey::Name => lex_le(a.name, b.name),
        SortKey::Size => a.size <= b.size,
        SortKey::Time => a.time <= b.time,
        SortKey::Path => parts_le(components(a.path), components(b.path)),
        SortKey::Hash => lex_le(a.hash, b.hash),
    }
}

/// The order by a key, rising or, reversed, falling.
pub open spec fn ordering(key: SortKey, reversed: bool) -> spec_fn(FileView, FileView) -> bool {
    |a: FileView, b: FileView|
        if reversed {
            key_le(key, b, a)
        } else {
            key_le(key, a, b)
        }
}

/// Where `item` goes into a sorted sequence: behind the last file that
/// stands at or before it, so behind every file of its own rank.
pub open spec fn insert_position(
    sorted: Seq<FileView>,
    item: FileView,
    le: spec_fn(FileView, FileView) -> bool,
) -> int
    decreases sorted.len(),
{
    if sorted.len() == 0 {
        0
    } else if le(sorted.last(), item) {
        sorted.len() as int
    } else {
        insert_position(sorted.drop_last(), item, le)
    }
}

/// A sorted sequence with one more file, at its place.
pub open spec fn inserted(
    sorted: Seq<FileView>,
    item: FileView,
    le: spec_fn(FileView, FileView) -> bool,
) -> Seq<FileView> {
    sorted.insert(insert_position(sorted, item, le), item)
}

/// The files in the order `le`, files of one rank in the order in which
/// they came: each file in turn goes into what the files before it make.
pub open spec fn sorted_by(items: Seq<FileView>, le: spec_fn(FileView, FileView) -> bool) -> Seq<
    FileView,
>
    decreases items.len(),
{
    if items.len() == 0 {
        items
    } else {
        inserted(sorted_by(items.drop_last(), le), items.last(), le)
    }
}

/// Whether every file stands at or before all that follow it.
pub open spec fn is_ordered(items: Seq<FileView>, le: spec_fn(FileView, FileView) -> bool) -> bool {
    forall|i: int, j: int| 0 <= i < j < items.len() ==> le(items[i], items[j])
}

/// Whether `le` ranks any two files, and ranks them without a circle.
pub open spec fn is_total_preorder(le: spec_fn(FileView, FileView) -> bool) -> bool {
    &&& forall|a: FileView, b: FileView| #[trigger] le(a, b) || le(b, a)
    &&& forall|a: FileView, b: FileView, c: FileView|
        #[trigger] le(a, b) && #[trigger] le(b, c) ==> le(a, c)
}

/// Whether two files have the same rank.
pub open spec fn same_rank(le: spec_fn(FileView, FileView) -> bool, a: FileView, b: FileView) -> bool {
    le(a, b) && le(b, a)
}

/// Of two paths, one is at or before the other.
proof fn lemma_parts_le_total(a: Seq<Seq<char>>, b: Seq<Seq<char>>)
    ensures
        parts_le(a, b) || parts_le(b, a),
    decreases a.len(),
{
    if a.len() > 0 && b.len() > 0 {
        if a[0] == b[0] {
            lemma_parts_le_total(a.drop_first(), b.drop_first());
        } else {
            lemma_lex_le_total(a[0], b[0]);
        }
    }
}

/// The order of paths is transitive.
proof fn lemma_parts_le_transitive(a: Seq<Seq<char>>, b: Seq<Seq<char>>, c: Seq<Seq<char>>)
    requires
        parts_le(a, b),
        parts_le(b, c),
    ensures
        parts_le(a, c),
    decreases a.len(),
{
    if a.len() > 0 && b.len() > 0 && c.len() > 0 {
        if a[0] == b[0] && b[0] == c[0] {
            lemma_parts_le_transitive(a.drop_first(), b.drop_first(), c.drop_first());
        } else if a[0] != b[0] && b[0] != c[0] {
            lemma_lex_le_transitive(a[0], b[0], c[0]);
            if a[0] == c[0] {
                crate::text::lemma_lex_le_antisymmetric(a[0], b[0]);
            }
        }
    }
}

/// Every order of this library ranks any two files, and without a circle.
pub proof fn lemma_ordering_is_total_preorder(key: SortKey, reversed: bool)
    ensures
        is_total_preorder(ordering(key, reversed)),
{
    let le = ordering(key, reversed);
    assert forall|a: FileView, b: FileView| #[trigger] le(a, b) || le(b, a) by {
        lemma_lex_le_total(a.name, b.name);
        lemma_lex_le_total(a.hash, b.hash);
        lemma_parts_le_total(components(a.path), components(b.path));
    }
    assert forall|a: FileView, b: FileView, c: FileView| #[trigger]
        le(a, b) && #[trigger] le(b, c) implies le(a, c) by {
        if reversed {
            match key {
                SortKey::Name => lemma_lex_le_transitive(c.name, b.name, a.name),
                SortKey::Hash => lemma_lex_le_transitive(c.hash, b.hash, a.hash),
                SortKey::Path => lemma_parts_le_transitive(
                    components(c.path),
                    components(b.path),
                    components(a.path),
                ),
                _ => {},
            }
        } else {
            match key {
                SortKey::Name => lemma_lex_le_transitive(a.name, b.name, c.name),
                SortKey::Hash => lemma_lex_le_transitive(a.hash, b.hash, c.hash),
                SortKey::Path => lemma_parts_le_transitive(
                    components(a.path),
                    components(b.path),
                    components(c.path),
                ),
                _ => {},
            }
        }
    }
}

/// Where a file goes in: behind a file at or before it, and before none
/// such.
proof fn lemma_insert_position(
    sorted: Seq<FileView>,
    item: FileView,
    le: spec_fn(FileView, FileView) -> bool,
)
    ensures
        0 <= insert_position(sorted, item, le) <= sorted.len(),
        insert_position(sorted, item, le) > 0 ==> le(
            sorted[insert_position(sorted, item, le) - 1],
            item,
        ),
        forall|k: int|
            insert_position(sorted, item, le) <= k < sorted.len() ==> !le(#[trigger] sorted[k], item),
    decreases sorted.len(),
{
    if sorted.len() > 0 && !le(sorted.last(), item) {
        lemma_insert_position(sorted.drop_last(), item, le);
        let at = insert_position(sorted, item, le);
        assert forall|k: int| at <= k < sorted.len() implies !le(#[trigger] sorted[k], item) by {
            if k < sorted.len() - 1 {
                assert(sorted.drop_last()[k] == sorted[k]);
            }
        }
    }
}

/// Sorting keeps the number of files.
pub proof fn lemma_sorted_len(items: Seq<FileView>, le: spec_fn(FileView, FileView) -> bool)
    ensures
        sorted_by(items, le).len() == items.len(),
    decreases items.len(),
{
    if items.len() > 0 {
        let rest = sorted_by(items.drop_last(), le);
        lemma_sorted_len(items.drop_last(), le);
        lemma_insert_position(rest, items.last(), le);
    }
}

/// A sorted collection is in order.
pub proof fn lemma_sorted_is_ordered(items: Seq<FileView>, le: spec_fn(FileView, FileView) -> bool)
    requires
        is_total_preorder(le),
    ensures
        is_ordered(sorted_by(items, le), le),
    decreases items.len(),
{
    if items.len() > 0 {
        let rest = sorted_by(items.drop_last(), le);
        let item = items.last();
        let at = insert_position(rest, item, le);
        lemma_sorted_is_ordered(items.drop_last(), le);
        lemma_insert_position(rest, item, le);
        let all = rest.insert(at, item);
        assert forall|i: int, j: int| 0 <= i < j < all.len() implies le(all[i], all[j]) by {
            if j < at {
                assert(all[i] == rest[i] && all[j] == rest[j]);
            } else if j == at {
                if i < at - 1 {
                    assert(le(rest[i], rest[at - 1]));
                }
            } else if i < at {
                assert(all[i] == rest[i] && all[j] == rest[j - 1]);
            } else if i == at {
                assert(all[j] == rest[j - 1]);
            } else {
                assert(all[i] == rest[i - 1] && all[j] == rest[j - 1]);
            }
        }
    }
}

/// A sorted collection holds the files it was made of, each as often as
/// before.
pub proof fn lemma_sorted_permutes(items: Seq<FileView>, le: spec_fn(FileView, FileView) -> bool)
    ensures
        sorted_by(items, le).to_multiset() == items.to_multiset(),
    decreases items.len(),
{
    if items.len() > 0 {
        let rest = sorted_by(items.drop_last(), le);
        lemma_sorted_permutes(items.drop_last(), le);
        lemma_insert_position(rest, items.last(), le);
        vstd::seq_lib::to_multiset_insert(rest, insert_position(rest, items.last(), le), items.last());
        vstd::seq_lib::to_multiset_build(items.drop_last(), items.last());
        assert(items.drop_last().push(items.last()) =~= items);
    }
}

/// Sorting a collection that is in order changes nothing.
pub proof fn lemma_sorted_of_ordered(items: Seq<FileView>, le: spec_fn(FileView, FileView) -> bool)
    requires
        is_ordered(items, le),
    ensures
        sorted_by(items, le) == items,
    decreases items.len(),
{
    if items.len() > 0 {
        lemma_sorted_of_ordered(items.drop_last(), le);
        let rest = items.drop_last();
        if rest.len() > 0 {
            assert(le(items[rest.len() - 1], items[items.len() - 1]));
        }
    }
}

/// Sorting twice gives what sorting once gives.
pub proof fn lemma_sort_idempotent(items: Seq<FileView>, le: spec_fn(FileView, FileView) -> bool)
    requires
        is_total_preorder(le),
    ensures
        sorted_by(sorted_by(items, le), le) == sorted_by(items, le),
{
    lemma_sorted_is_ordered(items, le);
    lemma_sorted_of_ordered(sorted_by(items, le), le);
}

/// Sorting is stable: the files of any one rank stand in the sorted
/// collection in the order in which they stood before.
pub proof fn lemma_sort_stable(
    items: Seq<FileView>,
    le: spec_fn(FileView, FileView) -> bool,
    sample: FileView,
)
    requires
        is_total_preorder(le),
    ensures
        sorted_by(items, le).filter(|file: FileView| same_rank(le, file, sample)) == items.filter(
            |file: FileView| same_rank(le, file, sample),
        ),
    decreases items.len(),
{
    let of_rank = |file: FileView| same_rank(le, file, sample);
    if items.len() > 0 {
        let rest = sorted_by(items.drop_last(), le);
        let item = items.last();
        let at = insert_position(rest, item, le);
        lemma_sort_stable(items.drop_last(), le, sample);
        lemma_insert_position(rest, item, le);
        let head = rest.subrange(0, at);
        let tail = rest.subrange(at, rest.len() as int);
        assert(rest =~= head + tail);
        Seq::filter_distributes_over_add(head, tail, of_rank);
        Seq::filter_distributes_over_add(head.push(item), tail, of_rank);
        head.lemma_filter_push(item, of_rank);
        items.drop_last().lemma_filter_push(item, of_rank);
        assert(items.drop_last().push(item) =~= items);
        if of_rank(item) {
            assert(tail.all(|file: FileView| !of_rank(file))) by {
                assert forall|k: int| 0 <= k < tail.len() implies !of_rank(#[trigger] tail[k]) by {
                    if of_rank(tail[k]) {
                        assert(le(tail[k], sample) && le(sample, item));
                    }
                }
            }
            tail.lemma_all_neg_filter_empty(of_rank);
            assert(head.filter(of_rank).push(item) + tail.filter(of_rank) =~= head.filter(
                of_rank,
            ).push(item));
        }
    } else {
        assert(sorted_by(items, le) =~= items);
    }
}

/// Compares two paths, cut into their components, as `parts_le` says.
fn parts_le_of(a: &Vec<String>, b: &Vec<String>) -> (r: bool)
    ensures
        r == parts_le(text_views(a@), text_views(b@)),
{
    let ghost left = text_views(a@);
    let ghost right = text_views(b@);
    let mut i: usize = 0;
    proof {
        assert(left.skip(0) =~= left);
        assert(right.skip(0) =~= right);
    }
    loop
        invariant
            left == text_views(a@),
            right == text_views(b@),
            i <= a@.len(),
            i <= b@.len(),
            parts_le(left, right) == parts_le(left.skip(i as int), right.skip(i as int)),
        decreases a@.len() - i,
    {
        if i >= a.len() {
            return true;
        }
        if i >= b.len() {
            return false;
        }
        proof {
            assert(left.skip(i as int).drop_first() =~= left.skip(i + 1));
            assert(right.skip(i as int).drop_first() =~= right.skip(i + 1));
        }
        if !text_eq(a[i].as_str(), b[i].as_str()) {
            return text_le(a[i].as_str(), b[i].as_str());
        }
        i += 1;
    }
}

/// Whether file `a` stands at or before file `b` in the order by a key.
pub fn record_le(
    key: SortKey,
    reversed: bool,
    a: &SingleFileInformations,
    b: &SingleFileInformations,
) -> (r: bool)
    ensures
        r == ordering(key, reversed)(a@, b@),
{
    let (first, second) = if reversed {
        (b, a)
    } else {
        (a, b)
    };
    match key {
        SortKey::Name => text_le(first.name.as_str(), second.name.as_str()),
        SortKey::Size => first.size <= second.size,
        SortKey::Time => first.time <= second.time,
        SortKey::Path => {
            let left = split_path(first.path.as_str());
            let right = split_path(second.path.as_str());
            parts_le_of(&left, &right)
        },
        SortKey::Hash => text_le(first.hash.as_str(), second.hash.as_str()),
    }
}

/// Two sorted sequences as one: the sequences are taken down from their
/// ends, the later file first; of two files of one rank that of `b` is the
/// later.
spec fn merged(a: Seq<FileView>, b: Seq<FileView>, le: spec_fn(FileView, FileView) -> bool) -> Seq<
    FileView,
>
    decreases a.len() + b.len(),
{
    if a.len() == 0 {
        b
    } else if b.len() == 0 {
        a
    } else if le(a.last(), b.last()) {
        merged(a, b.drop_last(), le).push(b.last())
    } else {
        merged(a.drop_last(), b, le).push(a.last())
    }
}

/// A file that the last file stands at or before goes to the end.
proof fn lemma_inserted_at_end(
    sorted: Seq<FileView>,
    item: FileView,
    le: spec_fn(FileView, FileView) -> bool,
)
    requires
        sorted.len() == 0 || le(sorted.last(), item),
    ensures
        inserted(sorted, item, le) == sorted.push(item),
{
    assert(sorted.insert(sorted.len() as int, item) =~= sorted.push(item));
}

/// A file that the last file does not stand at or before goes in before
/// it.
proof fn lemma_inserted_before(
    sorted: Seq<FileView>,
    last: FileView,
    item: FileView,
    le: spec_fn(FileView, FileView) -> bool,
)
    requires
        !le(last, item),
    ensures
        inserted(sorted.push(last), item, le) == inserted(sorted, item, le).push(last),
{
    assert(sorted.push(last).drop_last() =~= sorted);
    lemma_insert_position(sorted, item, le);
}

/// What two sequences merge to: all their files, the later of their last
/// files last.
proof fn lemma_merged_last(
    a: Seq<FileView>,
    b: Seq<FileView>,
    le: spec_fn(FileView, FileView) -> bool,
)
    ensures
        merged(a, b, le).len() == a.len() + b.len(),
        a.len() > 0 && b.len() > 0 ==> merged(a, b, le).last() == if le(a.last(), b.last()) {
            b.last()
        } else {
            a.last()
        },
        a.len() == 0 ==> merged(a, b, le) == b,
        b.len() == 0 ==> merged(a, b, le) == a,
    decreases a.len() + b.len(),
{
    if a.len() > 0 && b.len() > 0 {
        if le(a.last(), b.last()) {
            lemma_merged_last(a, b.drop_last(), le);
        } else {
            lemma_merged_last(a.drop_last(), b, le);
        }
    }
}

/// Putting a file into the second of two sequences and merging them gives
/// what merging them and putting the file into the result gives.
proof fn lemma_merged_inserted(
    a: Seq<FileView>,
    b: Seq<FileView>,
    item: FileView,
    le: spec_fn(FileView, FileView) -> bool,
)
    requires
        is_total_preorder(le),
    ensures
        merged(a, inserted(b, item, le), le) == inserted(merged(a, b, le), item, le),
    decreases a.len() + b.len(),
{
    let longer = inserted(b, item, le);
    lemma_merged_last(a, b, le);
    lemma_insert_position(b, item, le);
    if a.len() == 0 {
        lemma_merged_last(a, longer, le);
    } else if b.len() == 0 || le(b.last(), item) {
        // The file is the last of the longer sequence.
        lemma_inserted_at_end(b, item, le);
        assert(longer.drop_last() =~= b);
        if le(a.last(), item) {
            if b.len() > 0 {
                assert(le(merged(a, b, le).last(), item));
            }
            lemma_inserted_at_end(merged(a, b, le), item, le);
        } else {
            lemma_merged_inserted(a.drop_last(), b, item, le);
            if b.len() > 0 {
                assert(le(a.last(), b.last()) && le(b.last(), item) ==> le(a.last(), item));
            } else {
                lemma_merged_last(a.drop_last(), b, le);
                assert(a.drop_last().push(a.last()) =~= a);
            }
            lemma_inserted_before(merged(a.drop_last(), b, le), a.last(), item, le);
        }
    } else {
        // The last of the longer sequence is the last of the shorter one.
        let last = b.last();
        lemma_inserted_before(b.drop_last(), last, item, le);
        assert(longer.drop_last() =~= inserted(b.drop_last(), item, le));
        if le(a.last(), last) {
            lemma_merged_inserted(a, b.drop_last(), item, le);
            lemma_inserted_before(merged(a, b.drop_last(), le), last, item, le);
        } else {
            lemma_merged_inserted(a.drop_last(), b, item, le);
            lemma_inserted_before(merged(a.drop_last(), b, le), a.last(), item, le);
        }
    }
}

/// Sorting two halves and merging them gives the whole, sorted.
proof fn lemma_merged_sorted(
    first: Seq<FileView>,
    second: Seq<FileView>,
    le: spec_fn(FileView, FileView) -> bool,
)
    requires
        is_total_preorder(le),
    ensures
        merged(sorted_by(first, le), sorted_by(second, le), le) == sorted_by(first + second, le),
    decreases second.len(),
{
    if second.len() == 0 {
        lemma_merged_last(sorted_by(first, le), sorted_by(second, le), le);
    } else {
        lemma_merged_sorted(first, second.drop_last(), le);
        lemma_merged_inserted(
            sorted_by(first, le),
            sorted_by(second.drop_last(), le),
            second.last(),
            le,
        );
        assert((first + second).drop_last() =~= first + second.drop_last());
    }
}

/// Merges two sorted collections.
fn merge(
    a: Vec<SingleFileInformations>,
    b: Vec<SingleFileInformations>,
    key: SortKey,
    reversed: bool,
) -> (all: Vec<SingleFileInformations>)
    ensures
        file_views(all@) == merged(file_views(a@), file_views(b@), ordering(key, reversed)),
{
    let ghost le = ordering(key, reversed);
    let ghost whole = merged(file_views(a@), file_views(b@), le);
    let mut a = a;
    let mut b = b;
    // The end of the result, its last file first.
    let mut back: Vec<SingleFileInformations> = Vec::new();
    let ghost end: Seq<FileView> = Seq::empty();
    while a.len() > 0 && b.len() > 0
        invariant
            le == ordering(key, reversed),
            whole == merged(file_views(a@), file_views(b@), le) + end,
            back@.len() == end.len(),
            forall|k: int| 0 <= k < end.len() ==> (#[trigger] back@[k])@ == end[end.len() - 1 - k],
        decreases a@.len() + b@.len(),
    {
        let ghost left = file_views(a@);
        let ghost right = file_views(b@);
        let item = if record_le(key, reversed, &a[a.len() - 1], &b[b.len() - 1]) {
            let item = b.pop().unwrap();
            assert(file_views(b@) =~= right.drop_last());
            item
        } else {
            let item = a.pop().unwrap();
            assert(file_views(a@) =~= left.drop_last());
            item
        };
        proof {
            end = seq![item@] + end;
        }
        back.push(item);
    }
    proof {
        lemma_merged_last(file_views(a@), file_views(b@), le);
    }
    let mut all = if a.len() > 0 {
        a
    } else {
        b
    };
    let ghost front = file_views(all@);
    let ghost mut moved: int = 0;
    proof {
        assert(end.take(0) =~= Seq::<FileView>::empty());
    }
    while back.len() > 0
        invariant
            whole == front + end,
            file_views(all@) == front + end.take(moved),
            0 <= moved,
            moved + back@.len() == end.len(),
            forall|k: int|
                0 <= k < back@.len() ==> (#[trigger] back@[k])@ == end[end.len() - 1 - k],
        decreases back@.len(),
    {
        let ghost before = file_views(all@);
        let ghost next = back@[back@.len() - 1]@;
        let item = back.pop().unwrap();
        all.push(item);
        proof {
            assert(file_views(all@) =~= before.push(next));
            moved = moved + 1;
        }
    }
    proof {
        assert(end.take(end.len() as int) =~= end);
    }
    all
}

/// Sorts a collection by halves.
fn merge_sort(
    files: Vec<SingleFileInformations>,
    key: SortKey,
    reversed: bool,
) -> (sorted: Vec<SingleFileInformations>)
    ensures
        file_views(sorted@) == sorted_by(file_views(files@), ordering(key, reversed)),
    decreases files@.len(),
{
    let ghost le = ordering(key, reversed);
    let ghost given = file_views(files@);
    if files.len() <= 1 {
        proof {
            if given.len() == 1 {
                assert(sorted_by(given.drop_last(), le) == given.drop_last());
                lemma_inserted_at_end(given.drop_last(), given.last(), le);
            }
        }
        return files;
    }
    let mut first = files;
    let second = first.split_off(first.len() / 2);
    proof {
        assert(given =~= file_views(first@) + file_views(second@));
        lemma_ordering_is_total_preorder(key, reversed);
        lemma_merged_sorted(file_views(first@), file_views(second@), le);
    }
    let a = merge_sort(first, key, reversed);
    let b = merge_sort(second, key, reversed);
    merge(a, b, key, reversed)
}

/// Sorts the files by a key, rising or, reversed, falling. Files of one
/// rank keep the order in which they came.
pub fn sort_by_key(files: &mut Vec<SingleFileInformations>, key: SortKey, reversed: bool)
    ensures
        file_views(final(files)@) == sorted_by(file_views(old(files)@), ordering(key, reversed)),
{
    let mut taken: Vec<SingleFileInformations> = Vec::new();
    std::mem::swap(files, &mut taken);
    *files = merge_sort(taken, key, reversed);
}

/// What `sort_files` makes of a collection: sorted by the key that the sort
/// type names; left as it is where the type names none.
pub open spec fn sorted_files(items: Seq<FileView>, sort_type: Seq<char>, reversed: bool) -> Seq<
    FileView,
> {
    match sort_key_of(sort_type) {
        Some(key) => sorted_by(items, ordering(key, reversed)),
        None => items,
    }
}

/// Sorts the files by `name`, `size`, `time` or `path`, rising or, reversed,
/// falling; files of one rank keep the order in which they came. Any other
/// sort type leaves the collection as it is.
pub fn sort_files(files: &mut Vec<SingleFileInformations>, sort_type: String, reversed: bool)
    ensures
        file_views(final(files)@) == sorted_files(file_views(old(files)@), sort_type@, reversed),
{
    let kind = sort_type.as_str();
    if text_eq(kind, "name") {
        sort_by_key(files, SortKey::Name, reversed);
    } else if text_eq(kind, "size") {
        sort_by_key(files, SortKey::Size, reversed);
    } else if text_eq(kind, "time") {
        sort_by_key(files, SortKey::Time, reversed);
    } else if text_eq(kind, "path") {
        sort_by_key(files, SortKey::Path, reversed);
    }
}

} // verus!
