//! The folders of the files found, as a tree, and the tree as text.
//!
//! The tree is an arena: a folder names its father and its children by their
//! index. Index 0 is the root, which has no name and no father.

use vstd::prelude::*;
use crate::path::{components, split_path};
use crate::search_file::SingleFileInformations;
use crate::text::{push_char, text_views};

verus! {

/// One folder of the tree. A file is a folder without children.
#[derive(Debug, PartialEq, Eq)]
pub struct FolderInformations {
    /// The name of the folder: one component of a path.
    pub foldname: String,
    /// The index of the folder that holds this one; none for the root.
    pub father: Option<usize>,
    /// The indices of the folders that this one holds, in rising order.
    pub childs: Vec<usize>,
}

/// What a `FolderInformations` holds, as mathematical values.
pub struct FolderView {
    pub foldname: Seq<char>,
    pub father: Option<usize>,
    pub childs: Seq<usize>,
}

impl View for FolderInformations {
    type V = FolderView;

    open spec fn view(&self) -> FolderView {
        FolderView { foldname: self.foldname@, father: self.father, childs: self.childs@ }
    }
}

/// The views of the folders of a tree, in its order.
pub open spec fn folder_views(tree: Seq<FolderInformations>) -> Seq<FolderView> {
    Seq::new(tree.len(), |i: int| tree[i]@)
}

/// Whether every folder but the first names a father that stands before it.
pub open spec fn fathers_precede(tree: Seq<FolderView>) -> bool {
    forall|i: int|
        1 <= i < tree.len() ==> (#[trigger] tree[i]).father is Some && tree[i].father->0 < i
}

/// Whether the arena is a tree: it has a root, every other folder has a
/// father before it, and the children of a folder are exactly the folders
/// that name it as their father, in rising order.
pub open spec fn tree_wf(tree: Seq<FolderView>) -> bool {
    &&& 1 <= tree.len() <= usize::MAX
    &&& tree[0].father is None
    &&& tree[0].foldname.len() == 0
    &&& fathers_precede(tree)
    &&& forall|i: int, k: int|
        0 <= i < tree.len() && 0 <= k < tree[i].childs.len() ==> i < (
        #[trigger] tree[i].childs[k]) < tree.len() && tree[tree[i].childs[k] as int].father
            == Some(i as usize)
    &&& forall|i: int, k: int, l: int|
        0 <= i < tree.len() && 0 <= k < l < tree[i].childs.len() ==> (
        #[trigger] tree[i].childs[k]) < (#[trigger] tree[i].childs[l])
    &&& forall|j: int|
        1 <= j < tree.len() ==> #[trigger] tree[tree[j].father->0 as int].childs.contains(
            j as usize,
        )
}

/// The names on the way from the root to a folder, the folder's own last.
pub open spec fn node_path(tree: Seq<FolderView>, index: int) -> Seq<Seq<char>>
    decreases index,
{
    if 0 < index < tree.len() && tree[index].father is Some && tree[index].father->0 < index {
        node_path(tree, tree[index].father->0 as int).push(tree[index].foldname)
    } else {
        Seq::empty()
    }
}

/// The known paths and, after them, each beginning of `parts` up to `count`
/// components that is not among them yet, the shorter first.
pub open spec fn with_prefixes(
    known: Seq<Seq<Seq<char>>>,
    parts: Seq<Seq<char>>,
    count: int,
) -> Seq<Seq<Seq<char>>>
    decreases count,
{
    if count <= 0 {
        known
    } else {
        let before = with_prefixes(known, parts, count - 1);
        if before.contains(parts.take(count)) {
            before
        } else {
            before.push(parts.take(count))
        }
    }
}

/// The folders that a collection of paths asks for: first the root, which is
/// the empty path, then every beginning of every path, each once, in the
/// order in which the paths bring them up.
pub open spec fn trie_paths(paths: Seq<Seq<Seq<char>>>) -> Seq<Seq<Seq<char>>>
    decreases paths.len(),
{
    if paths.len() == 0 {
        seq![Seq::empty()]
    } else {
        with_prefixes(trie_paths(paths.drop_last()), paths.last(), paths.last().len() as int)
    }
}

/// Whether no path stands twice in the collection.
pub open spec fn all_distinct(paths: Seq<Seq<Seq<char>>>) -> bool {
    forall|i: int, j: int| 0 <= i < j < paths.len() ==> paths[i] != paths[j]
}

/// Whether the tree holds exactly the folders `paths`: folder `i` is reached
/// from the root by the names `paths[i]`.
pub open spec fn represents(tree: Seq<FolderView>, paths: Seq<Seq<Seq<char>>>) -> bool {
    &&& tree_wf(tree)
    &&& tree.len() == paths.len()
    &&& forall|i: int| 0 <= i < tree.len() ==> #[trigger] node_path(tree, i) == paths[i]
}

/// The paths of the files of a collection, each as its components.
pub open spec fn file_components(files: Seq<SingleFileInformations>) -> Seq<Seq<Seq<char>>> {
    Seq::new(files.len(), |k: int| components(files[k].path@))
}

/// Adding beginnings leaves the known paths where they stand.
proof fn lemma_with_prefixes_grows(known: Seq<Seq<Seq<char>>>, parts: Seq<Seq<char>>, count: int)
    ensures
        known.len() <= with_prefixes(known, parts, count).len(),
        with_prefixes(known, parts, count).take(known.len() as int) == known,
    decreases count,
{
    if count > 0 {
        lemma_with_prefixes_grows(known, parts, count - 1);
        let before = with_prefixes(known, parts, count - 1);
        let after = with_prefixes(known, parts, count);
        assert(after.take(known.len() as int) =~= before.take(known.len() as int));
    } else {
        assert(known.take(known.len() as int) =~= known);
    }
}

/// Adding beginnings to paths that are all different keeps them so.
proof fn lemma_with_prefixes_distinct(
    known: Seq<Seq<Seq<char>>>,
    parts: Seq<Seq<char>>,
    count: int,
)
    requires
        all_distinct(known),
    ensures
        all_distinct(with_prefixes(known, parts, count)),
    decreases count,
{
    if count > 0 {
        lemma_with_prefixes_distinct(known, parts, count - 1);
    }
}

/// No folder stands twice among the folders that a collection of paths
/// asks for.
pub proof fn lemma_trie_paths_distinct(paths: Seq<Seq<Seq<char>>>)
    ensures
        all_distinct(trie_paths(paths)),
        trie_paths(paths).len() >= 1,
        trie_paths(paths)[0] == Seq::<Seq<char>>::empty(),
    decreases paths.len(),
{
    if paths.len() > 0 {
        lemma_trie_paths_distinct(paths.drop_last());
        lemma_with_prefixes_distinct(
            trie_paths(paths.drop_last()),
            paths.last(),
            paths.last().len() as int,
        );
        lemma_with_prefixes_grows(
            trie_paths(paths.drop_last()),
            paths.last(),
            paths.last().len() as int,
        );
        let before = trie_paths(paths.drop_last());
        let after = trie_paths(paths);
    }
}

/// A known path, and each beginning that was to be added, is held
/// afterwards.
proof fn lemma_with_prefixes_holds(
    known: Seq<Seq<Seq<char>>>,
    parts: Seq<Seq<char>>,
    count: int,
    path: Seq<Seq<char>>,
)
    requires
        known.contains(path) || exists|n: int| 1 <= n <= count && path == parts.take(n),
    ensures
        with_prefixes(known, parts, count).contains(path),
    decreases count,
{
    if count > 0 {
        let before = with_prefixes(known, parts, count - 1);
        let after = with_prefixes(known, parts, count);
        if path == parts.take(count) {
            if !before.contains(path) {
                assert(after[before.len() as int] == path);
            }
        } else {
            if !known.contains(path) {
                let n = choose|n: int| 1 <= n <= count && path == parts.take(n);
            }
            lemma_with_prefixes_holds(known, parts, count - 1, path);
            let at = choose|at: int| 0 <= at < before.len() && before[at] == path;
            assert(after[at] == path);
        }
    }
}

/// What is held afterwards was known or is one of the beginnings.
proof fn lemma_with_prefixes_holds_only(
    known: Seq<Seq<Seq<char>>>,
    parts: Seq<Seq<char>>,
    count: int,
    at: int,
)
    requires
        0 <= at < with_prefixes(known, parts, count).len(),
    ensures
        known.contains(with_prefixes(known, parts, count)[at]) || exists|n: int|
            1 <= n <= count && with_prefixes(known, parts, count)[at] == #[trigger] parts.take(n),
    decreases count,
{
    if count > 0 {
        let before = with_prefixes(known, parts, count - 1);
        if at < before.len() {
            lemma_with_prefixes_holds_only(known, parts, count - 1, at);
            if !known.contains(before[at]) {
                let n = choose|n: int|
                    1 <= n <= count - 1 && before[at] == #[trigger] parts.take(n);
            }
        } else {
            assert(with_prefixes(known, parts, count)[at] == parts.take(count));
        }
    } else {
        assert(known[at] == with_prefixes(known, parts, count)[at]);
    }
}

/// Every beginning of every path is among the folders that the paths ask
/// for.
pub proof fn lemma_trie_paths_hold_every_beginning(
    paths: Seq<Seq<Seq<char>>>,
    which: int,
    length: int,
)
    requires
        0 <= which < paths.len(),
        0 <= length <= paths[which].len(),
    ensures
        trie_paths(paths).contains(paths[which].take(length)),
    decreases paths.len(),
{
    let before = trie_paths(paths.drop_last());
    let last = paths.last();
    let path = paths[which].take(length);
    if length == 0 {
        lemma_trie_paths_distinct(paths);
        assert(path =~= Seq::<Seq<char>>::empty());
    } else if which == paths.len() - 1 {
        lemma_with_prefixes_holds(before, last, last.len() as int, path);
    } else {
        lemma_trie_paths_hold_every_beginning(paths.drop_last(), which, length);
        lemma_with_prefixes_holds(before, last, last.len() as int, path);
    }
}

/// Every folder that the paths ask for is the beginning of one of them, or
/// the root.
pub proof fn lemma_trie_paths_hold_beginnings_only(paths: Seq<Seq<Seq<char>>>, at: int)
    requires
        0 <= at < trie_paths(paths).len(),
    ensures
        trie_paths(paths)[at].len() == 0 || exists|which: int, length: int|
            0 <= which < paths.len() && 1 <= length <= paths[which].len() && trie_paths(paths)[at]
                == #[trigger] paths[which].take(length),
    decreases paths.len(),
{
    if paths.len() > 0 {
        let before = trie_paths(paths.drop_last());
        let last = paths.last();
        let folder = trie_paths(paths)[at];
        lemma_with_prefixes_holds_only(before, last, last.len() as int, at);
        if before.contains(folder) {
            let earlier = choose|earlier: int| 0 <= earlier < before.len() && before[earlier] == folder;
            lemma_trie_paths_hold_beginnings_only(paths.drop_last(), earlier);
            if folder.len() > 0 {
                let (which, length) = choose|which: int, length: int|
                    0 <= which < paths.drop_last().len() && 1 <= length
                        <= paths.drop_last()[which].len() && before[earlier]
                        == #[trigger] paths.drop_last()[which].take(length);
                assert(paths.drop_last()[which] == paths[which]);
            }
        } else {
            let n = choose|n: int| 1 <= n <= last.len() && folder == #[trigger] last.take(n);
        }
    }
}

/// Adding beginnings that are all known changes nothing.
proof fn lemma_known_prefixes(known: Seq<Seq<Seq<char>>>, parts: Seq<Seq<char>>, count: int)
    requires
        forall|n: int| 1 <= n <= count ==> known.contains(#[trigger] parts.take(n)),
    ensures
        with_prefixes(known, parts, count) == known,
    decreases count,
{
    if count > 0 {
        lemma_known_prefixes(known, parts, count - 1);
    }
}

/// Two trees that agree on names and fathers up to a folder agree on the
/// way to it.
proof fn lemma_node_path_agrees(first: Seq<FolderView>, second: Seq<FolderView>, index: int)
    requires
        index < first.len() <= second.len(),
        forall|i: int|
            0 <= i <= index ==> (#[trigger] first[i]).father == second[i].father && first[i].foldname
                == second[i].foldname,
    ensures
        node_path(first, index) == node_path(second, index),
    decreases index,
{
    if 0 < index && first[index].father is Some && first[index].father->0 < index {
        lemma_node_path_agrees(first, second, first[index].father->0 as int);
    }
}

/// The way to a folder is no longer than its index, and empty for the root
/// only.
proof fn lemma_node_path_length(tree: Seq<FolderView>, index: int)
    requires
        fathers_precede(tree),
        0 <= index < tree.len(),
    ensures
        (node_path(tree, index).len() == 0) == (index == 0),
        node_path(tree, index).len() <= index,
    decreases index,
{
    if index > 0 {
        lemma_node_path_length(tree, tree[index].father->0 as int);
    }
}

/// The tree with one more folder, below `father`.
proof fn lemma_grow(
    tree: Seq<FolderView>,
    grown: Seq<FolderView>,
    father: int,
    name: Seq<char>,
)
    requires
        tree_wf(tree),
        0 <= father < tree.len(),
        tree.len() < usize::MAX,
        grown.len() == tree.len() + 1,
        grown[tree.len() as int] == (FolderView {
            foldname: name,
            father: Some(father as usize),
            childs: Seq::empty(),
        }),
        grown[father] == (FolderView {
            childs: tree[father].childs.push(tree.len() as usize),
            ..tree[father]
        }),
        forall|i: int| 0 <= i < tree.len() && i != father ==> grown[i] == tree[i],
    ensures
        tree_wf(grown),
        forall|i: int| 0 <= i < tree.len() ==> #[trigger] node_path(grown, i) == node_path(tree, i),
        node_path(grown, tree.len() as int) == node_path(tree, father).push(name),
{
    let fresh = tree.len() as int;
    assert forall|i: int| 0 <= i < tree.len() implies #[trigger] node_path(grown, i) == node_path(
        tree,
        i,
    ) by {
        lemma_node_path_agrees(tree, grown, i);
    }
    assert(node_path(grown, father) == node_path(tree, father));
    assert(fathers_precede(grown)) by {
        assert forall|i: int| 1 <= i < grown.len() implies (#[trigger] grown[i]).father is Some
            && grown[i].father->0 < i by {
            if i < fresh {
                assert(tree[i].father is Some);
            }
        }
    }
    assert forall|i: int, k: int|
        0 <= i < grown.len() && 0 <= k < grown[i].childs.len() implies i < (
    #[trigger] grown[i].childs[k]) < grown.len() && grown[grown[i].childs[k] as int].father
        == Some(i as usize) by {
        if i == father {
            if k < tree[father].childs.len() {
                assert(grown[i].childs[k] == tree[i].childs[k]);
            }
        } else if i < fresh {
            assert(grown[i].childs[k] == tree[i].childs[k]);
        }
    }
    assert forall|i: int, k: int, l: int|
        0 <= i < grown.len() && 0 <= k < l < grown[i].childs.len() implies (
    #[trigger] grown[i].childs[k]) < (#[trigger] grown[i].childs[l]) by {
        if i == father {
            if l < tree[father].childs.len() {
                assert(grown[i].childs[l] == tree[i].childs[l]);
            }
        } else if i < fresh {
            assert(grown[i].childs[k] == tree[i].childs[k]);
        }
    }
    assert forall|j: int| 1 <= j < grown.len() implies #[trigger] grown[grown[j].father->0 as int].childs.contains(
        j as usize,
    ) by {
        if j == fresh {
            assert(grown[father].childs[tree[father].childs.len() as int] == j as usize);
        } else {
            let f = tree[j].father->0 as int;
            assert(tree[f].childs.contains(j as usize));
            let k = choose|k: int| 0 <= k < tree[f].childs.len() && tree[f].childs[k] == j as usize;
            assert(grown[f].childs[k] == j as usize);
        }
    }
}

/// Whether `trail` is a way down the tree: its first folder is a child of
/// the root, and each further one a child of the one before.
spec fn trail_valid(tree: Seq<FolderView>, trail: Seq<usize>) -> bool {
    forall|d: int|
        0 <= d < trail.len() ==> 1 <= (#[trigger] trail[d]) < tree.len() && tree[trail[d] as int].father
            == Some(trail_end(trail, d))
}

/// The folder at the end of the first `depth` steps of a trail; the root
/// for no step.
spec fn trail_end(trail: Seq<usize>, depth: int) -> usize {
    if depth <= 0 {
        0
    } else {
        trail[depth - 1]
    }
}

/// Whether the first `depth` steps of the trail follow the names `parts`.
spec fn trail_follows(
    tree: Seq<FolderView>,
    trail: Seq<usize>,
    parts: Seq<Seq<char>>,
    depth: int,
) -> bool {
    &&& depth <= trail.len()
    &&& depth <= parts.len()
    &&& forall|e: int|
        0 <= e < depth ==> node_path(tree, #[trigger] trail[e] as int) == parts.take(e + 1)
}

/// The folder at the end of a trail that follows `parts` is reached by
/// these names.
proof fn lemma_trail_end_path(
    tree: Seq<FolderView>,
    trail: Seq<usize>,
    parts: Seq<Seq<char>>,
    depth: int,
)
    requires
        tree.len() >= 1,
        trail_valid(tree, trail),
        trail_follows(tree, trail, parts, depth),
        0 <= depth,
    ensures
        node_path(tree, trail_end(trail, depth) as int) == parts.take(depth),
        0 <= trail_end(trail, depth) < tree.len(),
{
    if depth > 0 {
        assert(node_path(tree, trail[depth - 1] as int) == parts.take(depth - 1 + 1));
    } else {
        assert(parts.take(0) =~= Seq::<Seq<char>>::empty());
    }
}

/// A child that bears the next name is reached by one name more.
proof fn lemma_step_down(
    tree: Seq<FolderView>,
    paths: Seq<Seq<Seq<char>>>,
    father: usize,
    child: usize,
    parts: Seq<Seq<char>>,
    depth: int,
)
    requires
        represents(tree, paths),
        father < tree.len(),
        1 <= child < tree.len(),
        tree[child as int].father == Some(father),
        tree[child as int].foldname == parts[depth],
        node_path(tree, father as int) == parts.take(depth),
        0 <= depth < parts.len(),
    ensures
        node_path(tree, child as int) == parts.take(depth + 1),
        paths.contains(parts.take(depth + 1)),
{
    assert(node_path(tree, child as int) == node_path(tree, father as int).push(
        tree[child as int].foldname,
    ));
    assert(paths[child as int] == node_path(tree, child as int));
}

/// Where no child of the folder bears the next name, the tree holds no
/// folder for that path.
proof fn lemma_absent(
    tree: Seq<FolderView>,
    paths: Seq<Seq<Seq<char>>>,
    father: usize,
    parts: Seq<Seq<char>>,
    depth: int,
)
    requires
        represents(tree, paths),
        all_distinct(paths),
        father < tree.len(),
        node_path(tree, father as int) == parts.take(depth),
        0 <= depth < parts.len(),
        forall|x: int|
            0 <= x < tree[father as int].childs.len() ==> tree[(
            #[trigger] tree[father as int].childs[x]) as int].foldname != parts[depth],
    ensures
        !paths.contains(parts.take(depth + 1)),
{
    if paths.contains(parts.take(depth + 1)) {
        let j = choose|j: int| 0 <= j < paths.len() && paths[j] == parts.take(depth + 1);
        assert(node_path(tree, j) == paths[j]);
        lemma_node_path_length(tree, j);
        let f = tree[j].father->0;
        assert(node_path(tree, j) == node_path(tree, f as int).push(tree[j].foldname));
        assert(node_path(tree, j).drop_last() =~= node_path(tree, f as int));
        assert(parts.take(depth + 1).drop_last() =~= parts.take(depth));
        assert(node_path(tree, j).last() == tree[j].foldname);
        if f < father {
            assert(paths[f as int] != paths[father as int]);
        } else if father < f {
            assert(paths[father as int] != paths[f as int]);
        }
        assert(tree[tree[j].father->0 as int].childs.contains(j as usize));
        let x = choose|x: int|
            0 <= x < tree[f as int].childs.len() && tree[f as int].childs[x] == j as usize;
    }
}

/// The child of `father` that bears `name`, if there is one.
fn find_child(
    tree: &Vec<FolderInformations>,
    father: usize,
    name: &String,
) -> (found: Option<usize>)
    requires
        tree_wf(folder_views(tree@)),
        father < tree@.len(),
    ensures
        found matches Some(child) ==> 1 <= child < tree@.len() && folder_views(
            tree@,
        )[child as int].father == Some(father) && folder_views(tree@)[child as int].foldname
            == name@,
        found is None ==> forall|x: int|
            0 <= x < folder_views(tree@)[father as int].childs.len() ==> folder_views(tree@)[(
            #[trigger] folder_views(tree@)[father as int].childs[x]) as int].foldname != name@,
{
    let ghost t = folder_views(tree@);
    let mut x: usize = 0;
    while x < tree[father].childs.len()
        invariant
            t == folder_views(tree@),
            tree_wf(t),
            father < tree@.len(),
            x <= t[father as int].childs.len(),
            forall|y: int|
                0 <= y < x ==> t[(#[trigger] t[father as int].childs[y]) as int].foldname != name@,
        decreases t[father as int].childs.len() - x,
    {
        let child = tree[father].childs[x];
        assert(father < child < t.len());
        if tree[child].foldname == *name {
            return Some(child);
        }
        x += 1;
    }
    None
}

/// Adds a folder without children below `father`, and gives its index.
fn add_child(tree: &mut Vec<FolderInformations>, father: usize, name: String) -> (fresh: usize)
    requires
        tree_wf(folder_views(old(tree)@)),
        father < old(tree)@.len(),
    ensures
        fresh == old(tree)@.len(),
        final(tree)@.len() == fresh + 1,
        tree_wf(folder_views(final(tree)@)),
        forall|i: int|
            0 <= i < fresh ==> #[trigger] node_path(folder_views(final(tree)@), i) == node_path(
                folder_views(old(tree)@),
                i,
            ),
        forall|i: int|
            0 <= i < fresh ==> (#[trigger] folder_views(final(tree)@)[i]).father == folder_views(
                old(tree)@,
            )[i].father,
        node_path(folder_views(final(tree)@), fresh as int) == node_path(
            folder_views(old(tree)@),
            father as int,
        ).push(name@),
        folder_views(final(tree)@)[fresh as int].father == Some(father),
        folder_views(final(tree)@)[fresh as int].foldname == name@,
{
    let ghost before = folder_views(tree@);
    let ghost label = name@;
    let fresh = tree.len();
    tree.push(FolderInformations { foldname: name, father: Some(father), childs: Vec::new() });
    tree[father].childs.push(fresh);
    let total = tree.len();
    proof {
        let grown = folder_views(tree@);
        lemma_grow(before, grown, father as int, label);
    }
    fresh
}

/// The names of the folders of a trail, in its order.
spec fn trail_names(tree: Seq<FolderView>, trail: Seq<usize>) -> Seq<Seq<char>> {
    Seq::new(trail.len(), |d: int| tree[trail[d] as int].foldname)
}

/// How many names two sequences share from their beginning: the place of
/// the first name in which they differ, or the length of the shorter.
spec fn shared_length(first: Seq<Seq<char>>, second: Seq<Seq<char>>) -> nat
    decreases first.len(),
{
    if first.len() == 0 || second.len() == 0 || first[0] != second[0] {
        0
    } else {
        1 + shared_length(first.drop_first(), second.drop_first())
    }
}

/// How many steps of the trail, from its beginning, bear the names `parts`:
/// the steps up to the first whose folder has another name than the path has
/// there, or all steps that both have.
fn shared_depth(
    tree: &Vec<FolderInformations>,
    trail: &Vec<usize>,
    parts: &Vec<String>,
) -> (depth: usize)
    requires
        tree_wf(folder_views(tree@)),
        trail_valid(folder_views(tree@), trail@),
    ensures
        depth == shared_length(
            trail_names(folder_views(tree@), trail@),
            text_views(parts@),
        ),
        trail_follows(folder_views(tree@), trail@, text_views(parts@), depth as int),
{
    let ghost t = folder_views(tree@);
    let ghost c = text_views(parts@);
    let ghost names = trail_names(t, trail@);
    let mut m: usize = 0;
    proof {
        assert(names.skip(0) =~= names);
        assert(c.skip(0) =~= c);
    }
    while m < trail.len() && m < parts.len()
        invariant
            t == folder_views(tree@),
            c == text_views(parts@),
            names == trail_names(t, trail@),
            tree_wf(t),
            trail_valid(t, trail@),
            trail_follows(t, trail@, c, m as int),
            shared_length(names, c) == m + shared_length(names.skip(m as int), c.skip(m as int)),
        decreases trail@.len() - m,
    {
        assert(1 <= trail@[m as int] < t.len());
        proof {
            assert(names.skip(m as int)[0] == t[trail@[m as int] as int].foldname);
            assert(c.skip(m as int)[0] == parts@[m as int]@);
            assert(names.skip(m as int).drop_first() =~= names.skip(m + 1));
            assert(c.skip(m as int).drop_first() =~= c.skip(m + 1));
        }
        if tree[trail[m]].foldname == parts[m] {
            proof {
                lemma_trail_end_path(t, trail@, c, m as int);
                let child = trail@[m as int];
                let father = trail_end(trail@, m as int);
                assert(node_path(t, child as int) == node_path(t, father as int).push(
                    t[child as int].foldname,
                ));
                assert(c[m as int] == parts@[m as int]@);
                assert(c.take(m as int).push(c[m as int]) =~= c.take(m + 1));
            }
            m += 1;
        } else {
            return m;
        }
    }
    m
}

/// Builds the tree of the folders that the files' paths ask for: the root,
/// then each folder and each file once, in the order in which the paths
/// bring them up.
///
/// For a collection sorted by path this numbers every folder before what it
/// holds, and what it holds before the next folder beside it, which is the
/// numbering that `print_tree` is made for.
pub fn build_tree(files: &Vec<SingleFileInformations>) -> (tree: Vec<FolderInformations>)
    ensures
        represents(folder_views(tree@), trie_paths(file_components(files@))),
{
    let mut tree: Vec<FolderInformations> = Vec::new();
    tree.push(FolderInformations { foldname: String::new(), father: None, childs: Vec::new() });
    let mut trail: Vec<usize> = Vec::new();
    let ghost all = file_components(files@);
    proof {
        assert(all.take(0).len() == 0);
        assert(node_path(folder_views(tree@), 0) =~= Seq::<Seq<char>>::empty());
    }
    let mut k: usize = 0;
    while k < files.len()
        invariant
            k <= files.len(),
            all == file_components(files@),
            represents(folder_views(tree@), trie_paths(all.take(k as int))),
            trail_valid(folder_views(tree@), trail@),
        decreases files.len() - k,
    {
        let parts = split_path(files[k].path.as_str());
        let ghost c = text_views(parts@);
        let ghost known = trie_paths(all.take(k as int));
        // Up: keep of the trail what the new path shares with it.
        let m = shared_depth(&tree, &trail, &parts);
        trail.truncate(m);
        proof {
            lemma_trie_paths_distinct(all.take(k as int));
            let t = folder_views(tree@);
            assert forall|n: int| 1 <= n <= m implies known.contains(#[trigger] c.take(n)) by {
                assert(node_path(t, trail@[n - 1] as int) == c.take(n - 1 + 1));
            }
            lemma_known_prefixes(known, c, m as int);
        }
        // Down: follow the rest of the path, making what is missing.
        let mut d: usize = m;
        while d < parts.len()
            invariant
                d <= parts@.len(),
                trail@.len() == d,
                c == text_views(parts@),
                all_distinct(known),
                represents(folder_views(tree@), with_prefixes(known, c, d as int)),
                trail_valid(folder_views(tree@), trail@),
                trail_follows(folder_views(tree@), trail@, c, d as int),
            decreases parts@.len() - d,
        {
            let father: usize = if d == 0 {
                0
            } else {
                trail[d - 1]
            };
            let ghost t = folder_views(tree@);
            let ghost now = with_prefixes(known, c, d as int);
            proof {
                lemma_with_prefixes_distinct(known, c, d as int);
                lemma_trail_end_path(t, trail@, c, d as int);
            }
            let next = match find_child(&tree, father, &parts[d]) {
                Some(child) => {
                    proof {
                        lemma_step_down(t, now, father, child, c, d as int);
                    }
                    child
                },
                None => {
                    proof {
                        lemma_absent(t, now, father, c, d as int);
                    }
                    let fresh = add_child(&mut tree, father, parts[d].clone());
                    proof {
                        let grown = folder_views(tree@);
                        assert(c.take(d as int).push(c[d as int]) =~= c.take(d + 1));
                        assert(trail_valid(grown, trail@)) by {
                            assert forall|e: int| 0 <= e < trail@.len() implies 1 <= (
                            #[trigger] trail@[e]) < grown.len() && grown[trail@[e] as int].father
                                == Some(trail_end(trail@, e)) by {
                                assert(grown[trail@[e] as int].father == t[trail@[e] as int].father);
                            }
                        }
                        assert(trail_follows(grown, trail@, c, d as int)) by {
                            assert forall|e: int| 0 <= e < d implies node_path(
                                grown,
                                #[trigger] trail@[e] as int,
                            ) == c.take(e + 1) by {
                                assert(node_path(grown, trail@[e] as int) == node_path(
                                    t,
                                    trail@[e] as int,
                                ));
                            }
                        }
                        assert(represents(grown, now.push(c.take(d + 1)))) by {
                            let after = now.push(c.take(d + 1));
                            assert forall|i: int| 0 <= i < grown.len() implies #[trigger] node_path(
                                grown,
                                i,
                            ) == after[i] by {
                                if i < fresh {
                                    assert(node_path(grown, i) == node_path(t, i));
                                }
                            }
                        }
                    }
                    fresh
                },
            };
            let ghost t2 = folder_views(tree@);
            let ghost old_trail = trail@;
            trail.push(next);
            proof {
                assert(trail_valid(t2, trail@)) by {
                    assert forall|e: int| 0 <= e < trail@.len() implies 1 <= (#[trigger] trail@[e])
                        < t2.len() && t2[trail@[e] as int].father == Some(trail_end(trail@, e)) by {
                        if e < d {
                            assert(trail@[e] == old_trail[e]);
                        }
                    }
                }
                assert(trail_follows(t2, trail@, c, d + 1)) by {
                    assert forall|e: int| 0 <= e < d + 1 implies node_path(
                        t2,
                        #[trigger] trail@[e] as int,
                    ) == c.take(e + 1) by {
                        if e < d {
                            assert(trail@[e] == old_trail[e]);
                        }
                    }
                }
            }
            d += 1;
        }
        proof {
            assert(all.take(k + 1).drop_last() =~= all.take(k as int));
        }
        k += 1;
    }
    proof {
        assert(all.take(files@.len() as int) =~= all);
    }
    tree
}

/// How many folders lie between a folder and the root, the folder counted.
pub open spec fn node_depth(tree: Seq<FolderView>, index: int) -> nat
    decreases index,
{
    if 0 < index < tree.len() && tree[index].father is Some && tree[index].father->0 < index {
        node_depth(tree, tree[index].father->0 as int) + 1
    } else {
        0
    }
}

/// Whether a folder is the last of its father's children.
pub open spec fn is_last_child(tree: Seq<FolderView>, index: int) -> bool {
    let siblings = tree[tree[index].father->0 as int].childs;
    siblings.len() > 0 && siblings.last() == index
}

/// Whether the line of a folder ends the branch drawn in `column`: the
/// folder lies two levels or more below the root, `column` is the one of
/// its connector, and it is the last child of its father.
pub open spec fn closes_column(tree: Seq<FolderView>, index: int, column: int) -> bool {
    node_depth(tree, index) >= 2 && node_depth(tree, index) - 1 == column && is_last_child(
        tree,
        index,
    )
}

/// Whether a line above that of folder `index` has ended the branch drawn
/// in `column`. Once ended, a column stays so for the rest of the text.
pub open spec fn column_closed(tree: Seq<FolderView>, index: int, column: int) -> bool {
    exists|above: int| 1 <= above < index && #[trigger] closes_column(tree, above, column)
}

/// What a line shows in a column before its connector: blank where the
/// branch has ended, a bar where it goes on.
pub open spec fn gap(closed: bool) -> Seq<char> {
    if closed {
        "    "@
    } else {
        " │  "@
    }
}

/// What a line shows in the columns from 1 to `upto - 1`.
pub open spec fn indent(tree: Seq<FolderView>, index: int, upto: int) -> Seq<char>
    decreases upto,
{
    if upto <= 1 {
        Seq::empty()
    } else {
        indent(tree, index, upto - 1) + gap(column_closed(tree, index, upto - 1))
    }
}

/// The connector before a name: a corner for a last child, a fork for any
/// other.
pub open spec fn connector(last: bool) -> Seq<char> {
    if last {
        " └──"@
    } else {
        " ├──"@
    }
}

/// The character of a decimal digit.
pub open spec fn digit(value: int) -> char {
    if value == 0 {
        '0'
    } else if value == 1 {
        '1'
    } else if value == 2 {
        '2'
    } else if value == 3 {
        '3'
    } else if value == 4 {
        '4'
    } else if value == 5 {
        '5'
    } else if value == 6 {
        '6'
    } else if value == 7 {
        '7'
    } else if value == 8 {
        '8'
    } else {
        '9'
    }
}

/// A number in decimal digits, without leading zeros.
pub open spec fn decimal(number: nat) -> Seq<char>
    decreases number,
{
    if number < 10 {
        seq![digit(number as int)]
    } else {
        decimal(number / 10).push(digit((number % 10) as int))
    }
}

/// The name of a folder and, where it has children, their number, with the
/// end of the line.
pub open spec fn label(folder: FolderView) -> Seq<char> {
    if folder.childs.len() == 0 {
        folder.foldname + "\n"@
    } else {
        folder.foldname + " ("@ + decimal(folder.childs.len()) + " child(s))\n"@
    }
}

/// The line of one folder: for a child of the root its label alone; deeper
/// down the columns of the levels above, a connector, and the label.
pub open spec fn line(tree: Seq<FolderView>, index: int) -> Seq<char> {
    let depth = node_depth(tree, index) as int;
    if depth >= 2 {
        indent(tree, index, depth - 1) + connector(is_last_child(tree, index)) + label(
            tree[index],
        )
    } else {
        label(tree[index])
    }
}

/// The heading and the lines of the folders from 1 to `count - 1`.
pub open spec fn rendered_upto(tree: Seq<FolderView>, count: int) -> Seq<char>
    decreases count,
{
    if count <= 1 {
        "Tree structure:\n"@
    } else {
        rendered_upto(tree, count - 1) + line(tree, count - 1)
    }
}

/// The tree as text: a heading, then one line for each folder but the root,
/// in the order of their indices.
pub open spec fn rendered(tree: Seq<FolderView>) -> Seq<char> {
    rendered_upto(tree, tree.len() as int)
}

/// A folder lies no deeper than its index.
proof fn lemma_depth_bound(tree: Seq<FolderView>, index: int)
    requires
        0 <= index < tree.len(),
    ensures
        node_depth(tree, index) <= index,
    decreases index,
{
    if 0 < index && tree[index].father is Some && tree[index].father->0 < index {
        lemma_depth_bound(tree, tree[index].father->0 as int);
    }
}

/// The character of a decimal digit.
fn digit_of(value: usize) -> (c: char)
    requires
        value < 10,
    ensures
        c == digit(value as int),
{
    if value == 0 {
        '0'
    } else if value == 1 {
        '1'
    } else if value == 2 {
        '2'
    } else if value == 3 {
        '3'
    } else if value == 4 {
        '4'
    } else if value == 5 {
        '5'
    } else if value == 6 {
        '6'
    } else if value == 7 {
        '7'
    } else if value == 8 {
        '8'
    } else {
        '9'
    }
}

/// Writes a number in decimal digits at the end of a text.
fn push_decimal(text: &mut String, number: usize)
    ensures
        final(text)@ == old(text)@ + decimal(number as nat),
    decreases number,
{
    if number < 10 {
        push_char(text, digit_of(number));
    } else {
        push_decimal(text, number / 10);
        push_char(text, digit_of(number % 10));
    }
}

/// Whether every folder but the first names a father that stands before
/// it: what `print_tree` asks of a tree.
pub fn tree_is_linked(tree: &Vec<FolderInformations>) -> (linked: bool)
    ensures
        linked == fathers_precede(folder_views(tree@)),
{
    let ghost t = folder_views(tree@);
    let mut i: usize = 1;
    while i < tree.len()
        invariant
            1 <= i,
            t == folder_views(tree@),
            forall|j: int| 1 <= j < i && j < t.len() ==> (#[trigger] t[j]).father is Some
                && t[j].father->0 < j,
        decreases tree@.len() - i,
    {
        match tree[i].father {
            Some(father) => {
                if father >= i {
                    assert(!(t[i as int].father->0 < i));
                    return false;
                }
            },
            None => {
                return false;
            },
        }
        i += 1;
    }
    true
}

/// Writes the tree as text, one line for each folder but the root.
///
/// The lines come in the order of the indices. They draw the tree where
/// every folder stands before what it holds and the folders of one father
/// follow each other with what they hold, as `build_tree` numbers them for
/// a collection sorted by path.
#[verifier::rlimit(30)]
pub fn print_tree(tree: &Vec<FolderInformations>) -> (output: String)
    requires
        fathers_precede(folder_views(tree@)),
    ensures
        output@ == rendered(folder_views(tree@)),
{
    let ghost t = folder_views(tree@);
    let mut output = String::from_str("Tree structure:\n");
    if tree.len() == 0 {
        return output;
    }
    let mut depth: Vec<usize> = Vec::new();
    let mut ended: Vec<bool> = Vec::new();
    let mut filled: usize = 0;
    while filled < tree.len()
        invariant
            filled <= tree@.len(),
            ended@.len() == filled,
            forall|column: int| 0 <= column < filled ==> !(#[trigger] ended@[column]),
        decreases tree@.len() - filled,
    {
        ended.push(false);
        filled += 1;
    }
    depth.push(0);
    let mut id: usize = 1;
    while id < tree.len()
        invariant
            1 <= id <= tree@.len(),
            t == folder_views(tree@),
            fathers_precede(t),
            depth@.len() == id,
            forall|j: int| 0 <= j < id ==> #[trigger] depth@[j] == node_depth(t, j),
            ended@.len() == tree@.len(),
            forall|column: int|
                0 <= column < ended@.len() ==> #[trigger] ended@[column] == column_closed(
                    t,
                    id as int,
                    column,
                ),
            output@ == rendered_upto(t, id as int),
        decreases tree@.len() - id,
    {
        assert(t[id as int].father is Some && t[id as int].father->0 < id);
        let father = match tree[id].father {
            Some(father) => father,
            None => 0,
        };
        proof {
            lemma_depth_bound(t, father as int);
            lemma_depth_bound(t, id as int);
        }
        let level: usize = depth[father] + 1;
        assert(level == node_depth(t, id as int));
        depth.push(level);
        let ghost start = output@;
        let mut column: usize = 1;
        while column + 1 < level
            invariant
                1 <= column <= id < usize::MAX,
                level <= id < tree@.len(),
                level < 2 ==> column == 1,
                level >= 2 ==> column <= level - 1,
                ended@.len() == tree@.len(),
                forall|c: int|
                    0 <= c < ended@.len() ==> #[trigger] ended@[c] == column_closed(
                        t,
                        id as int,
                        c,
                    ),
                output@ == start + indent(t, id as int, column as int),
            decreases level - column,
        {
            if ended[column] {
                output.append("    ");
            } else {
                output.append(" │  ");
            }
            assert(output@ =~= start + indent(t, id as int, column + 1));
            column += 1;
        }
        let ghost indented = output@;
        assert(level >= 2 ==> indented == start + indent(t, id as int, level - 1));
        assert(indent(t, id as int, 1) =~= Seq::<char>::empty());
        assert(level < 2 ==> indented =~= start);
        let siblings = &tree[father].childs;
        let last = siblings.len() > 0 && siblings[siblings.len() - 1] == id;
        assert(last == is_last_child(t, id as int));
        if level >= 2 {
            if last {
                output.append(" └──");
                ended.set(level - 1, true);
            } else {
                output.append(" ├──");
            }
        }
        let ghost drawn = output@;
        assert(level >= 2 ==> drawn =~= start + (indent(t, id as int, level - 1) + connector(
            is_last_child(t, id as int),
        )));
        assert(level < 2 ==> drawn =~= start);
        output.append(tree[id].foldname.as_str());
        if tree[id].childs.len() == 0 {
            output.append("\n");
        } else {
            output.append(" (");
            push_decimal(&mut output, tree[id].childs.len());
            output.append(" child(s))\n");
        }
        proof {
            assert(output@ =~= drawn + label(t[id as int]));
            assert(output@ =~= start + line(t, id as int));
            assert forall|c: int| 0 <= c < ended@.len() implies #[trigger] ended@[c]
                == column_closed(t, id + 1, c) by {
                if column_closed(t, id as int, c) {
                    let above = choose|above: int|
                        1 <= above < id && #[trigger] closes_column(t, above, c);
                    assert(closes_column(t, above, c));
                }
                if closes_column(t, id as int, c) {
                    assert(column_closed(t, id + 1, c));
                }
                if column_closed(t, id + 1, c) {
                    let above = choose|above: int|
                        1 <= above < id + 1 && #[trigger] closes_column(t, above, c);
                    if above < id {
                        assert(column_closed(t, id as int, c));
                    }
                }
            }
        }
        id += 1;
    }
    output
}

/// Two rising sequences with the same members are the same sequence.
proof fn lemma_rising_equal(first: Seq<usize>, second: Seq<usize>)
    requires
        forall|k: int, l: int| 0 <= k < l < first.len() ==> first[k] < first[l],
        forall|k: int, l: int| 0 <= k < l < second.len() ==> second[k] < second[l],
        forall|x: usize| first.contains(x) <==> second.contains(x),
    ensures
        first == second,
    decreases first.len(),
{
    if first.len() == 0 {
        if second.len() > 0 {
            assert(second.contains(second[0]));
        }
    } else {
        assert(first.contains(first.last()));
        assert(second.contains(second.last()));
        let a = first.drop_last();
        let b = second.drop_last();
        assert forall|x: usize| a.contains(x) <==> b.contains(x) by {
            if a.contains(x) {
                let k = choose|k: int| 0 <= k < a.len() && a[k] == x;
                assert(first.contains(x));
                let l = choose|l: int| 0 <= l < second.len() && second[l] == x;
                assert(b[l] == x);
            }
            if b.contains(x) {
                let k = choose|k: int| 0 <= k < b.len() && b[k] == x;
                assert(second.contains(x));
                let l = choose|l: int| 0 <= l < first.len() && first[l] == x;
                assert(a[l] == x);
            }
        }
        lemma_rising_equal(a, b);
        assert(first =~= a.push(first.last()));
    }
}

/// There is one tree, and no other, that holds given folders: what
/// `represents` asks of a tree leaves nothing open.
pub proof fn lemma_represents_unique(
    first: Seq<FolderView>,
    second: Seq<FolderView>,
    paths: Seq<Seq<Seq<char>>>,
)
    requires
        represents(first, paths),
        represents(second, paths),
        all_distinct(paths),
    ensures
        first == second,
{
    assert forall|i: int| 0 <= i < first.len() implies (#[trigger] first[i]).father
        == second[i].father && first[i].foldname == second[i].foldname by {
        if i == 0 {
            assert(first[0].foldname =~= second[0].foldname);
        } else {
            let f = first[i].father->0 as int;
            let g = second[i].father->0 as int;
            assert(node_path(first, i).last() == first[i].foldname);
            assert(node_path(first, i).drop_last() =~= node_path(first, f));
            assert(node_path(second, i).drop_last() =~= node_path(second, g));
            if f < g {
                assert(paths[f] != paths[g]);
            } else if g < f {
                assert(paths[g] != paths[f]);
            }
        }
    }
    assert forall|i: int| 0 <= i < first.len() implies (#[trigger] first[i]).childs
        == second[i].childs by {
        let a = first[i].childs;
        let b = second[i].childs;
        assert forall|x: usize| a.contains(x) <==> b.contains(x) by {
            if a.contains(x) {
                let k = choose|k: int| 0 <= k < a.len() && a[k] == x;
                assert(second[second[x as int].father->0 as int].childs.contains(x as int as usize));
            }
            if b.contains(x) {
                let k = choose|k: int| 0 <= k < b.len() && b[k] == x;
                assert(first[first[x as int].father->0 as int].childs.contains(x as int as usize));
            }
        }
        assert forall|k: int, l: int| 0 <= k < l < a.len() implies a[k] < a[l] by {
            assert(first[i].childs[k] < first[i].childs[l]);
        }
        assert forall|k: int, l: int| 0 <= k < l < b.len() implies b[k] < b[l] by {
            assert(second[i].childs[k] < second[i].childs[l]);
        }
        lemma_rising_equal(a, b);
    }
}

/// The tree that holds given folders.
pub open spec fn tree_of(paths: Seq<Seq<Seq<char>>>) -> Seq<FolderView> {
    choose|tree: Seq<FolderView>| represents(tree, paths)
}

/// The folders of the files found as text: the tree of `build_tree`, written
/// by `print_tree`. The collection is to be sorted by path.
pub fn get_tree(files: &Vec<SingleFileInformations>) -> (output: String)
    ensures
        output@ == rendered(tree_of(trie_paths(file_components(files@)))),
{
    let tree = build_tree(files);
    proof {
        let paths = trie_paths(file_components(files@));
        lemma_trie_paths_distinct(file_components(files@));
        lemma_represents_unique(folder_views(tree@), tree_of(paths), paths);
    }
    print_tree(&tree)
}

} // verus!
