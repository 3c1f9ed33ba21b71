//! What is to be done with the files found: the steps of a copy, a move, a
//! removal and a copy that keeps the folders, and the count of how the
//! steps went.
//!
//! The library plans; the caller carries each step out and says how it went.

use vstd::prelude::*;
use crate::path::{
    begins_with,
    components,
    joined,
    joined_all,
    push_component,
    split_path,
};
use crate::search_file::{file_views, FileView, SingleFileInformations};
use crate::text::text_views;

verus! {

/// One step on one file.
#[derive(Debug, Clone, PartialEq, Eq)]
pub enum FileAction {
    /// Copy the file `from` to the path `to`, over what may be there.
    Copy { from: String, to: String },
    /// Move the file `from` to the path `to`, over what may be there.
    Move { from: String, to: String },
    /// Put the file into the trash of the system.
    Trash { path: String },
    /// Make the folder `folder` with all above it, then copy the file
    /// `from` to the path `to` in it.
    CopyInto { from: String, folder: String, to: String },
}

/// What a `FileAction` holds, as mathematical values.
pub enum ActionView {
    Copy { from: Seq<char>, to: Seq<char> },
    Move { from: Seq<char>, to: Seq<char> },
    Trash { path: Seq<char> },
    CopyInto { from: Seq<char>, folder: Seq<char>, to: Seq<char> },
}

impl View for FileAction {
    type V = ActionView;

    open spec fn view(&self) -> ActionView {
        match self {
            FileAction::Copy { from, to } => ActionView::Copy { from: from@, to: to@ },
            FileAction::Move { from, to } => ActionView::Move { from: from@, to: to@ },
            FileAction::Trash { path } => ActionView::Trash { path: path@ },
            FileAction::CopyInto { from, folder, to } => ActionView::CopyInto {
                from: from@,
                folder: folder@,
                to: to@,
            },
        }
    }
}

/// The views of the steps of a plan, in its order.
pub open spec fn action_views(actions: Seq<FileAction>) -> Seq<ActionView> {
    Seq::new(actions.len(), |i: int| actions[i]@)
}

/// The steps that copy each file into `destination`, under its own name.
pub open spec fn copy_plan(files: Seq<FileView>, destination: Seq<char>) -> Seq<ActionView> {
    Seq::new(
        files.len(),
        |i: int|
            ActionView::Copy { from: files[i].path, to: joined(destination, files[i].name) },
    )
}

/// The steps that move each file into `destination`, under its own name.
pub open spec fn move_plan(files: Seq<FileView>, destination: Seq<char>) -> Seq<ActionView> {
    Seq::new(
        files.len(),
        |i: int|
            ActionView::Move { from: files[i].path, to: joined(destination, files[i].name) },
    )
}

/// The steps that put each file into the trash.
pub open spec fn delete_plan(files: Seq<FileView>) -> Seq<ActionView> {
    Seq::new(files.len(), |i: int| ActionView::Trash { path: files[i].path })
}

/// Whether a file lies below the folder `source`: its path goes on where
/// that of `source` ends.
pub open spec fn lies_below(path: Seq<char>, source: Seq<char>) -> bool {
    begins_with(components(path), components(source)) && components(path).len() > components(
        source,
    ).len()
}

/// The step that copies a file below `source` to the same place below
/// `destination`: the components of its path that follow those of `source`
/// are joined to `destination`, all of them for the file, all but the last
/// for its folder.
pub open spec fn mapped(path: Seq<char>, source: Seq<char>, destination: Seq<char>) -> ActionView {
    let parts = components(path);
    let depth = components(source).len() as int;
    ActionView::CopyInto {
        from: path,
        folder: joined_all(destination, parts.subrange(depth, parts.len() - 1)),
        to: joined_all(destination, parts.subrange(depth, parts.len() as int)),
    }
}

/// The steps that copy the files below `source` to the same places below
/// `destination`. A file that does not lie below `source` has no step.
pub open spec fn mapping_plan(
    files: Seq<FileView>,
    source: Seq<char>,
    destination: Seq<char>,
) -> Seq<ActionView>
    decreases files.len(),
{
    if files.len() == 0 {
        Seq::empty()
    } else {
        let rest = mapping_plan(files.drop_last(), source, destination);
        if lies_below(files.last().path, source) {
            rest.push(mapped(files.last().path, source, destination))
        } else {
            rest
        }
    }
}

/// The path of `name` in the folder `destination`.
fn target_in(destination: &str, name: &str) -> (to: String)
    ensures
        to@ == joined(destination@, name@),
{
    let mut to = String::from_str(destination);
    push_component(&mut to, name);
    to
}

/// Plans the copy of the files into `destination`, each under its own name.
/// A file already there under that name is overwritten. Paths are taken as
/// they are given; they are meant to be absolute.
pub fn copy_files(files: &Vec<SingleFileInformations>, destination: &str) -> (plan: Vec<FileAction>)
    ensures
        action_views(plan@) == copy_plan(file_views(files@), destination@),
{
    let mut plan: Vec<FileAction> = Vec::new();
    let mut i: usize = 0;
    while i < files.len()
        invariant
            i <= files@.len(),
            plan@.len() == i,
            forall|k: int|
                0 <= k < i ==> (#[trigger] plan@[k])@ == copy_plan(
                    file_views(files@),
                    destination@,
                )[k],
        decreases files@.len() - i,
    {
        plan.push(
            FileAction::Copy {
                from: files[i].path.clone(),
                to: target_in(destination, files[i].name.as_str()),
            },
        );
        i += 1;
    }
    plan
}

/// Plans the move of the files into `destination`, each under its own name.
/// A file already there under that name is overwritten. Paths are taken as
/// they are given; they are meant to be absolute.
pub fn move_files(files: &Vec<SingleFileInformations>, destination: &str) -> (plan: Vec<FileAction>)
    ensures
        action_views(plan@) == move_plan(file_views(files@), destination@),
{
    let mut plan: Vec<FileAction> = Vec::new();
    let mut i: usize = 0;
    while i < files.len()
        invariant
            i <= files@.len(),
            plan@.len() == i,
            forall|k: int|
                0 <= k < i ==> (#[trigger] plan@[k])@ == move_plan(
                    file_views(files@),
                    destination@,
                )[k],
        decreases files@.len() - i,
    {
        plan.push(
            FileAction::Move {
                from: files[i].path.clone(),
                to: target_in(destination, files[i].name.as_str()),
            },
        );
        i += 1;
    }
    plan
}

/// Plans the removal of the files: each goes to the trash, from where it can
/// be brought back.
pub fn delete_files(files: &Vec<SingleFileInformations>) -> (plan: Vec<FileAction>)
    ensures
        action_views(plan@) == delete_plan(file_views(files@)),
{
    let mut plan: Vec<FileAction> = Vec::new();
    let mut i: usize = 0;
    while i < files.len()
        invariant
            i <= files@.len(),
            plan@.len() == i,
            forall|k: int|
                0 <= k < i ==> (#[trigger] plan@[k])@ == delete_plan(file_views(files@))[k],
        decreases files@.len() - i,
    {
        plan.push(FileAction::Trash { path: files[i].path.clone() });
        i += 1;
    }
    plan
}

/// Whether the components `parts` go on where `base` ends.
fn goes_below(parts: &Vec<String>, base: &Vec<String>) -> (below: bool)
    ensures
        below == (begins_with(text_views(parts@), text_views(base@)) && parts@.len()
            > base@.len()),
{
    if parts.len() <= base.len() {
        return false;
    }
    let ghost inner = text_views(parts@);
    let ghost outer = text_views(base@);
    let mut i: usize = 0;
    while i < base.len()
        invariant
            i <= base@.len() < parts@.len(),
            inner == text_views(parts@),
            outer == text_views(base@),
            inner.take(i as int) == outer.take(i as int),
        decreases base@.len() - i,
    {
        if !(parts[i] == base[i]) {
            assert(inner.take(outer.len() as int)[i as int] != outer[i as int]);
            return false;
        }
        i += 1;
    }
    assert(outer.take(outer.len() as int) =~= outer);
    true
}

/// The path that the components of `parts` from `from` up to `to` make
/// behind `base`.
fn join_range(base: &str, parts: &Vec<String>, from: usize, to: usize) -> (path: String)
    requires
        from <= to <= parts@.len(),
    ensures
        path@ == joined_all(base@, text_views(parts@).subrange(from as int, to as int)),
{
    let ghost names = text_views(parts@);
    let mut path = String::from_str(base);
    let mut i: usize = from;
    proof {
        assert(names.subrange(from as int, from as int) =~= Seq::<Seq<char>>::empty());
    }
    while i < to
        invariant
            from <= i <= to <= parts@.len(),
            names == text_views(parts@),
            path@ == joined_all(base@, names.subrange(from as int, i as int)),
        decreases to - i,
    {
        proof {
            let next = names.subrange(from as int, i + 1);
            assert(next.drop_last() =~= names.subrange(from as int, i as int));
        }
        push_component(&mut path, parts[i].as_str());
        i += 1;
    }
    path
}

/// Plans the copy of the files below `source` to the same places below
/// `destination`, folders kept. A file that does not lie below `source` is
/// passed over: it is for another source to map. Paths are taken as they are
/// given; they are meant to be absolute.
pub fn mapping_files(
    files: &Vec<SingleFileInformations>,
    source: &str,
    destination: &str,
) -> (plan: Vec<FileAction>)
    ensures
        action_views(plan@) == mapping_plan(file_views(files@), source@, destination@),
{
    let base = split_path(source);
    let ghost given = file_views(files@);
    let mut plan: Vec<FileAction> = Vec::new();
    let mut i: usize = 0;
    proof {
        assert(given.take(0) =~= Seq::<FileView>::empty());
    }
    while i < files.len()
        invariant
            i <= files@.len(),
            given == file_views(files@),
            text_views(base@) == components(source@),
            action_views(plan@) == mapping_plan(given.take(i as int), source@, destination@),
        decreases files@.len() - i,
    {
        let ghost before = action_views(plan@);
        proof {
            assert(given.take(i + 1).drop_last() =~= given.take(i as int));
        }
        let parts = split_path(files[i].path.as_str());
        if goes_below(&parts, &base) {
            let folder = join_range(destination, &parts, base.len(), parts.len() - 1);
            let to = join_range(destination, &parts, base.len(), parts.len());
            plan.push(FileAction::CopyInto { from: files[i].path.clone(), folder, to });
            assert(action_views(plan@) =~= before.push(
                mapped(files@[i as int].path@, source@, destination@),
            ));
        }
        i += 1;
    }
    proof {
        assert(given.take(files@.len() as int) =~= given);
    }
    plan
}

/// How the steps of a plan went: how many were tried, and how many of them
/// succeeded. A step that fails stops nothing: the others are still tried.
#[derive(Debug, Clone, Copy, PartialEq, Eq, Structural)]
pub struct BatchOutcome {
    pub attempted: usize,
    pub succeeded: usize,
}

/// How many of the results are successes.
pub open spec fn successes(results: Seq<bool>) -> nat
    decreases results.len(),
{
    if results.len() == 0 {
        0
    } else {
        successes(results.drop_last()) + if results.last() {
            1nat
        } else {
            0nat
        }
    }
}

/// Counts how the steps of a plan went, given the result of each.
pub fn summarize(results: &Vec<bool>) -> (outcome: BatchOutcome)
    ensures
        outcome.attempted == results@.len(),
        outcome.succeeded == successes(results@),
        outcome.succeeded <= outcome.attempted,
{
    let mut succeeded: usize = 0;
    let mut i: usize = 0;
    proof {
        assert(results@.take(0) =~= Seq::<bool>::empty());
    }
    while i < results.len()
        invariant
            i <= results@.len(),
            succeeded <= i,
            succeeded == successes(results@.take(i as int)),
        decreases results@.len() - i,
    {
        proof {
            assert(results@.take(i + 1).drop_last() =~= results@.take(i as int));
        }
        if results[i] {
            succeeded += 1;
        }
        i += 1;
    }
    proof {
        assert(results@.take(results@.len() as int) =~= results@);
    }
    BatchOutcome { attempted: results.len(), succeeded }
}

} // verus!
